//! What calls of the library give, told from what they are given.

use vstd::prelude::*;
use vstd::string::*;
use vstd::utf8::*;
use crate::asset::{
    asset_views, can_place, debug_filename, is_dynamic_library_filename, unresolved_views, Asset, AssetCommon,
    AssetData, AssetSource, AssetView, Assets, DiskStatus, IsBuilt, Platform, SourceView, UnresolvedAsset,
    UnresolvedView,
};
use crate::asset_laws::{lemma_package_builds, output_dir, package_builds};
use crate::config::Config;
use crate::dependency::{
    all_chosen, all_warnings, answer_views, architecture_query, collect_dependencies, dependency_requests,
    distinct, first_bracketed, get_architecture_specification, law_no_architecture, lemma_first_bracketed,
    match_architecture,
    request_views, requests_of, AnswerView, ArchSpec, ArchView, BinaryAnswer, BinaryView, DependencyAnswer,
    DependencyRequest, RequestView,
};
use crate::error::{Attempt, CDResult, CargoDebError, ErrorView};
use crate::flags::{added_flags, is_glob_char, is_glob_pattern};
use crate::generated::FoundUnit;
use crate::layout::{entry_views, BuildLayout};
use crate::manifest::{
    debian_package_name, format_conffiles, notice_views, take_variant, variant_at, CargoDeb,
    CargoMetadataTarget, Notice, NoticeView,
};
use crate::package::{
    binary_paths, binary_sources, built_positions, copyright_text,
    digest_lines, has_copyright_metadata, installed_size, vcs_kind, Package,
};
use crate::package_laws::{
    description_lines, ended, field_lines, is_entry_for, law_control_is_lines, law_copyright_metadata_lines,
    law_digest_next, law_digests_by_target, lemma_starts_with_field, metadata_lines,
    starts_with_field,
};
use crate::path::{components, name_of, path_join, path_strip_prefix, without_root};
use crate::resolve::{
    find_pattern_base, resolve_all, search_views, target_of_file, FileView, SourceFile,
};
use crate::resolve_laws::{holds_wildcard, law_resolved_sources, lemma_wildcard, made_of};
use crate::text::{hex, joined, lemma_encode_concat, lines, opt_text, texts, trimmed};

verus! {

/// A source has the path that it was made for, and is a link only where a link is, and then if
/// links are kept or it leads nowhere.
pub proof fn law_source_from_path(path: String, keep: bool, disk: DiskStatus, r: AssetSource)
    requires
        call_ensures(AssetSource::from_path, (path, keep, disk), r),
    ensures
        r@ == SourceView::Symlink(path@) || r@ == SourceView::Path(path@),
        r@ is Symlink <==> disk.is_symlink && (keep || !disk.exists),
{
}

/// The path of a source is that of its file or link, which data do not have.
pub proof fn law_source_path(s: AssetSource, r: Option<String>, q: Option<&String>)
    requires
        call_ensures(AssetSource::into_path, (s,), r),
        call_ensures(AssetSource::path, (&s,), q),
    ensures
        r is None <==> s is Data,
        q is None <==> s is Data,
        s matches AssetSource::Path(p) ==> r->0@ == p@ && q->0@ == p@,
        s matches AssetSource::Symlink(p) ==> r->0@ == p@ && q->0@ == p@,
{
}

/// The size of a source is that of its file on disk, or of its data; a link has none, and is
/// archived as a link only.
pub proof fn law_source_size(s: &AssetSource, on_disk: Option<u64>, r: Option<u64>, link: bool)
    requires
        call_ensures(AssetSource::file_size, (s, on_disk), r),
        call_ensures(AssetSource::archive_as_symlink_only, (s,), link),
    ensures
        s is Path ==> r == on_disk,
        *s matches AssetSource::Data(d) ==> r == Some(d@.len() as u64),
        s is Symlink ==> r is None,
        link <==> s is Symlink,
{
}

/// The bytes of a source are those in its file, or its own; a link has none to read, and a file
/// that cannot be read is told with its path.
pub proof fn law_source_bytes(
    s: &AssetSource,
    d: AssetData<'_>,
    read: Option<Attempt<Vec<u8>>>,
    r: CDResult<Vec<u8>>,
)
    requires
        call_ensures(AssetSource::data, (s,), Ok::<AssetData<'_>, CargoDebError>(d)),
        call_ensures(AssetData::bytes, (d, read), r),
        read is Some <==> d is File,
    ensures
        !(s is Symlink),
        s is Path <==> read is Some,
        *s matches AssetSource::Data(own) ==> r is Ok && r->Ok_0@ == own@,
        *s matches AssetSource::Path(p) ==> {
            &&& read->0 matches Ok(bytes) ==> r is Ok && r->Ok_0@ == bytes@
            &&& read->0 matches Err(e) ==> r is Err && r->Err_0@ == ErrorView::IoFile(
                "unable to read asset to add to archive"@,
                e@,
                p@,
            )
        },
{
}

/// Only a link has no data, and that is told.
pub proof fn law_link_has_no_data(s: &AssetSource, e: CargoDebError)
    requires
        call_ensures(AssetSource::data, (s,), Err::<AssetData<'_>, CargoDebError>(e)),
    ensures
        s is Symlink,
        e@ == ErrorView::Str("Symlink unexpectedly used to read file data"@),
{
}

/// A new asset is made of what it is given, and installed at the target, seen from the root, and
/// in it under its own name where the target is a directory.
pub proof fn law_new_asset(
    source: AssetSource,
    target: String,
    chmod: u32,
    is_built: IsBuilt,
    is_example: bool,
    a: Asset,
)
    requires
        call_ensures(Asset::new, (source, target, chmod, is_built, is_example), a),
        can_place(source@, target@),
    ensures
        a.source == source,
        a.processed_from is None,
        a.c.chmod == chmod,
        a.c.is_built == is_built,
        a.c.is_example == is_example,
        target@.len() == 0 || target@.last() != '/' ==> a.c.target_path@ == without_root(target@),
        target@.len() > 0 && target@.last() == '/' ==> {
            &&& source matches AssetSource::Path(p) ==> a.c.target_path@ == without_root(
                path_join(target@, name_of(p@)->0),
            )
            &&& source matches AssetSource::Symlink(p) ==> a.c.target_path@ == without_root(
                path_join(target@, name_of(p@)->0),
            )
            &&& !(source is Data)
        },
{
    assert(a@.c.chmod == chmod);
}

/// What was done to make an asset is noted, and nothing else changes.
pub proof fn law_processed(a: Asset, action: &'static str, original: Option<String>, r: Asset)
    requires
        call_ensures(Asset::processed, (a, action, original), r),
        a.processed_from is None,
    ensures
        r.source == a.source,
        r.c == a.c,
        r@.processed_from is Some,
        r@.processed_from->0.action == action@,
        r@.processed_from->0.original_path == opt_text(original),
{
}

/// What the mode, the path and the origin of an asset tell of it.
pub proof fn law_common(
    c: &AssetCommon,
    platform: &Platform,
    runs: bool,
    library: bool,
    built: bool,
    debug: String,
)
    requires
        call_ensures(AssetCommon::is_executable, (c,), runs),
        call_ensures(AssetCommon::is_dynamic_library, (c, platform), library),
        call_ensures(AssetCommon::is_built, (c,), built),
        call_ensures(AssetCommon::default_debug_target_path, (c,), debug),
    ensures
        runs <==> c.chmod & 0o111 != 0,
        library <==> name_of(c.target_path@) is Some && platform.dll_suffix@.is_suffix_of(
            name_of(c.target_path@)->0,
        ),
        built <==> c.is_built == IsBuilt::SamePackage || c.is_built == IsBuilt::Workspace,
        debug@ == path_join("/usr/lib/debug"@, without_root(c.target_path@)) + ".debug"@,
{
}

/// What a path tells of a file.
pub proof fn law_file_names(
    path: &str,
    platform: &Platform,
    library: bool,
    debug: String,
    pattern: bool,
)
    requires
        call_ensures(is_dynamic_library_filename, (path, platform), library),
        call_ensures(debug_filename, (path,), debug),
        call_ensures(is_glob_pattern, (path,), pattern),
    ensures
        library <==> name_of(path@) is Some && platform.dll_suffix@.is_suffix_of(
            name_of(path@)->0,
        ),
        debug@ == path@ + ".debug"@,
        pattern <==> holds_wildcard(path@),
{
    let p = path@;
    if pattern {
        let k = choose|k: int| 0 <= k < p.len() && is_glob_char(#[trigger] p[k]);
        assert(p[k] == '*' || p[k] == '[' || p[k] == ']' || p[k] == '!');
    }
    if holds_wildcard(p) {
        let k = choose|k: int|
            0 <= k < p.len() && ((#[trigger] p[k]) == '*' || p[k] == '[' || p[k] == ']' || p[k]
                == '!');
        assert(is_glob_char(p[k]));
    }
}

/// Assets are empty where there are neither any that are resolved nor others.
pub proof fn law_assets(
    found: Vec<Asset>,
    sought: Vec<UnresolvedAsset>,
    none: Assets,
    a: Assets,
    b: Assets,
    c: &Assets,
    empty: bool,
)
    requires
        call_ensures(Assets::new, (), none),
        call_ensures(Assets::with_resolved_assets, (found,), a),
        call_ensures(Assets::with_unresolved_assets, (sought,), b),
        call_ensures(Assets::is_empty, (c,), empty),
    ensures
        none.resolved@.len() == 0 && none.unresolved@.len() == 0,
        a.resolved == found && a.unresolved@.len() == 0,
        b.unresolved == sought && b.resolved@.len() == 0,
        empty <==> c.resolved@.len() + c.unresolved@.len() == 0,
{
}

/// A target is one of the package if its source is below the manifest, and else one of the
/// workspace; a file of the build is one of the package if such a target is built into it.
pub proof fn law_who_builds(
    layout: BuildLayout<'_>,
    t: &CargoMetadataTarget,
    r: IsBuilt,
    rel: &str,
    kind: &str,
    q: IsBuilt,
)
    requires
        call_ensures(BuildLayout::is_built_file_in_package, (&layout, t), r),
        call_ensures(BuildLayout::find_is_built_file_in_package, (&layout, rel, kind), q),
        name_of(rel@) is Some,
    ensures
        r != IsBuilt::No && q != IsBuilt::No,
        r == IsBuilt::SamePackage <==> components(layout.manifest_dir@).is_prefix_of(
            components(t.src_path@),
        ),
        q == IsBuilt::SamePackage <==> package_builds(
            layout@,
            name_of(rel@)->0,
            kind@,
        ),
{
    lemma_package_builds(layout@, rel@, kind@);
}

/// A file of the build lies in the directory of the build.
pub proof fn law_path_of_build(layout: BuildLayout<'_>, rel: &str, r: String)
    requires
        call_ensures(BuildLayout::path_in_build, (&layout, rel), r),
    ensures
        r@ == path_join(output_dir(layout@), rel@),
{
}

/// What is read of a manifest, and what is said, is what its entries, and its targets, give.
pub proof fn law_layout_calls(
    layout: BuildLayout<'_>,
    list: &Vec<Vec<String>>,
    listener: &mut Vec<Notice>,
    read: CDResult<Vec<UnresolvedAsset>>,
    package: &str,
    readme: &Option<String>,
    implied: CDResult<Vec<Asset>>,
)
    requires
        call_ensures(BuildLayout::read_assets, (&layout, list, listener), read),
        call_ensures(BuildLayout::default_assets, (&layout, package, readme), implied),
    ensures
        read matches Ok(v) ==> layout@.read_assets(entry_views(list@)) is Ok
            && layout@.read_assets(entry_views(list@))->Ok_0 == unresolved_views(v@),
        read matches Err(e) ==> layout@.read_assets(entry_views(list@)) is Err
            && layout@.read_assets(entry_views(list@))->Err_0 == e@,
        notice_views(final(listener)@) == notice_views(old(listener)@) + layout@.asset_notices(
            entry_views(list@),
        ),
        implied matches Ok(v) ==> layout@.default_assets(package@, opt_text(*readme)) is Ok
            && layout@.default_assets(package@, opt_text(*readme))->Ok_0 == asset_views(v@),
        implied matches Err(e) ==> layout@.default_assets(package@, opt_text(*readme)) is Err
            && layout@.default_assets(package@, opt_text(*readme))->Err_0 == e@,
{
}

/// An entry that is read gives the target that it names.
pub proof fn law_read_entry(
    layout: BuildLayout<'_>,
    entries: &Vec<String>,
    listener: &mut Vec<Notice>,
    r: CDResult<UnresolvedAsset>,
)
    requires
        call_ensures(BuildLayout::read_asset, (&layout, entries, listener), r),
    ensures
        r matches Ok(a) ==> {
            &&& layout@.read_asset(texts(entries@)) is Ok
            &&& layout@.read_asset(texts(entries@))->Ok_0 == a@
            &&& entries@.len() >= 3
            &&& a.c.target_path@ == entries@[1]@
        },
        r matches Err(e) ==> layout@.read_asset(texts(entries@)) is Err && layout@.read_asset(
            texts(entries@),
        )->Err_0 == e@,
        entries@.len() == 0 ==> r is Err && notice_views(final(listener)@) == notice_views(
            old(listener)@,
        ),
{
    assert(texts(entries@).len() == entries@.len());
    assert(notice_views(old(listener)@) + Seq::empty() =~= notice_views(old(listener)@));
    if let Ok(a) = r {
        assert(a@.c.target_path == texts(entries@)[1]);
    }
}

/// The asset is made of a file that was found for an entry.
pub open spec fn was_found(
    a: AssetView,
    entries: Seq<UnresolvedView>,
    searches: Seq<Result<Seq<FileView>, ErrorView>>,
    keep: bool,
) -> bool {
    exists|i: int, k: int|
        0 <= i < entries.len() && searches[i] is Ok && 0 <= k < searches[i]->Ok_0.len()
            && made_of(a, #[trigger] entries[i], #[trigger] searches[i]->Ok_0[k], keep)
}

/// Each asset that is added stands for a file that was found, and is made of it as its entry
/// says; what was resolved before stays in front, and nothing else of the configuration changes.
pub proof fn law_resolve_assets(
    c: &mut Config,
    matches: Vec<CDResult<Vec<SourceFile>>>,
    r: CDResult<()>,
)
    requires
        call_ensures(Config::resolve_assets, (c, matches), r),
    ensures
        ({
            let before = old(c).deb.assets.resolved@;
            let after = final(c).deb.assets.resolved@;
            let entries = unresolved_views(old(c).deb.assets.unresolved@);
            let searches = search_views(matches@);
            let keep = old(c).deb.preserve_symlinks;
            &&& final(c).deb.assets.unresolved@.len() == 0
            &&& after.len() >= before.len()
            &&& after.take(before.len() as int) == before
            &&& asset_views(after.skip(before.len() as int)) == resolve_all(
                entries,
                searches,
                keep,
            ).0
            &&& r is Ok <==> resolve_all(entries, searches, keep).1 is None
            &&& r matches Err(e) ==> resolve_all(entries, searches, keep).1 == Some(e@)
            &&& forall|j: int|
                before.len() <= j < after.len() ==> was_found(
                    (#[trigger] after[j])@,
                    entries,
                    searches,
                    keep,
                )
            &&& *final(c) == (Config {
                deb: Package { assets: final(c).deb.assets, ..old(c).deb },
                ..*old(c)
            })
        }),
{
    let before = old(c).deb.assets.resolved@;
    let after = final(c).deb.assets.resolved@;
    let entries = unresolved_views(old(c).deb.assets.unresolved@);
    let searches = search_views(matches@);
    let keep = old(c).deb.preserve_symlinks;
    let found = resolve_all(entries, searches, keep).0;
    law_resolved_sources(entries, searches, keep);
    assert(asset_views(after) == asset_views(before) + found);
    assert(asset_views(after).len() == after.len() && asset_views(before).len() == before.len());
    let n = before.len() as int;
    assert forall|j: int| 0 <= j < found.len() implies #[trigger] found[j] == after[n + j]@ by {
        assert(asset_views(after)[n + j] == (asset_views(before) + found)[n + j]);
    }
    let more = asset_views(after.skip(n));
    assert(more.len() == found.len());
    assert forall|j: int| 0 <= j < found.len() implies more[j] == #[trigger] found[j] by {
        assert(more[j] == after[n + j]@);
    }
    assert(more =~= found);
    assert forall|j: int| n <= j < after.len() implies was_found(
        (#[trigger] after[j])@,
        entries,
        searches,
        keep,
    ) by {
        assert(found[j - n] == after[j]@);
    }
}

/// The target of a file is that of its entry, and behind that, for a pattern, the path of the
/// file below the directory that the pattern starts from. A file elsewhere has none.
pub proof fn law_target_of_file(
    u: &UnresolvedAsset,
    source: &str,
    file: &str,
    base: String,
    r: Option<String>,
)
    requires
        source@ == u.source_path@,
        call_ensures(find_pattern_base, (source,), base),
        call_ensures(target_of_file, (u, file), r),
    ensures
        !holds_wildcard(source@) ==> r is Some && r->0@ == u.c.target_path@,
        holds_wildcard(source@) ==> match path_strip_prefix(file@, base@) {
            Some(rel) => r is Some && r->0@ == path_join(u.c.target_path@, rel),
            None => r is None,
        },
{
    lemma_wildcard(source@);
}

/// One more asset adds one line to the list of digests, if there is a digest for the path at
/// which it is installed: the digits, two spaces, and that path. Without one it adds nothing.
pub proof fn law_digest_list_next(
    p: &Package,
    q: &Package,
    a: Asset,
    hashes: &Vec<(String, [u8; 32])>,
    r: CDResult<Vec<u8>>,
    s: CDResult<Vec<u8>>,
)
    requires
        call_ensures(Package::generate_sha256sums, (p, hashes), r),
        call_ensures(Package::generate_sha256sums, (q, hashes), s),
        q.assets.resolved@ == p.assets.resolved@.push(a),
    ensures
        r is Ok && s is Ok,
        p.assets.resolved@.len() == 0 ==> r->Ok_0@.len() == 0,
        forall|k: int| #[trigger]
            is_entry_for(hashes@, a.c.target_path@, k) ==> s->Ok_0@ == r->Ok_0@ + encode_utf8(
                hex(hashes@[k].1@) + seq![' ', ' '] + a.c.target_path@ + seq!['\n'],
            ),
        (forall|k: int| !#[trigger] is_entry_for(hashes@, a.c.target_path@, k)) ==> s->Ok_0@
            == r->Ok_0@,
{
    let list = asset_views(p.assets.resolved@);
    assert(asset_views(q.assets.resolved@) =~= list.push(a@));
    law_digest_next(list, a@, hashes@);
    if p.assets.resolved@.len() == 0 {
        assert(list =~= Seq::empty());
        assert(encode_utf8(Seq::empty()).len() == 0);
    }
    let before = digest_lines(list, hashes@);
    assert forall|k: int| #[trigger] is_entry_for(hashes@, a.c.target_path@, k) implies s->Ok_0@
        == r->Ok_0@ + encode_utf8(
        hex(hashes@[k].1@) + seq![' ', ' '] + a.c.target_path@ + seq!['\n'],
    ) by {
        let line = hex(hashes@[k].1@) + seq![' ', ' '] + a.c.target_path@ + seq!['\n'];
        assert(digest_lines(list.push(a@), hashes@) =~= before + line);
        lemma_encode_concat(before, line);
    }
}

/// Packages whose assets are installed at the same paths have the same list of digests.
pub proof fn law_digest_list_by_target(
    p: &Package,
    q: &Package,
    hashes: &Vec<(String, [u8; 32])>,
    r: CDResult<Vec<u8>>,
    s: CDResult<Vec<u8>>,
)
    requires
        call_ensures(Package::generate_sha256sums, (p, hashes), r),
        call_ensures(Package::generate_sha256sums, (q, hashes), s),
        p.assets.resolved@.len() == q.assets.resolved@.len(),
        forall|i: int|
            0 <= i < p.assets.resolved@.len() ==> (
            #[trigger] p.assets.resolved@[i]).c.target_path@
                == q.assets.resolved@[i].c.target_path@,
    ensures
        r is Ok && s is Ok,
        r->Ok_0@ == s->Ok_0@,
{
    let x = asset_views(p.assets.resolved@);
    let y = asset_views(q.assets.resolved@);
    assert forall|i: int| 0 <= i < x.len() implies (#[trigger] x[i]).c.target_path
        == y[i].c.target_path by {
        assert(p.assets.resolved@[i].c.target_path@ == q.assets.resolved@[i].c.target_path@);
    }
    law_digests_by_target(x, y, hashes@);
}

/// The control file and the copyright file are never refused, and hold the bytes of their lines.
pub proof fn law_package_texts(
    p: &Package,
    deps: &str,
    on_disk: &Vec<Option<u64>>,
    description: &Vec<String>,
    extended: &Vec<String>,
    control: CDResult<Vec<u8>>,
    license: Option<&String>,
    copyright: CDResult<Vec<u8>>,
)
    requires
        call_ensures(
            Package::generate_control,
            (p, deps, on_disk, description, extended),
            control,
        ),
        call_ensures(Package::copyright_file, (p, license), copyright),
    ensures
        control is Ok && copyright is Ok,
        control->Ok_0@ == encode_utf8(
            ended(
                field_lines(
                    *p,
                    deps@,
                    installed_size(asset_views(p.assets.resolved@), on_disk@),
                ) + description_lines(
                    if p.extended_description is Some {
                        texts(description@) + texts(extended@)
                    } else {
                        texts(description@)
                    },
                ),
            ),
        ),
        license is None ==> copyright->Ok_0@ == encode_utf8(ended(metadata_lines(*p))),
        license matches Some(file) ==> copyright->Ok_0@ == encode_utf8(
            copyright_text(*p, Some(file@)),
        ),
{
    law_control_is_lines(*p, deps@, on_disk@, texts(description@), texts(extended@));
    law_copyright_metadata_lines(*p);
}

/// The metadata that are appended are those of a copyright file without a license file, and they
/// are looked for in the first ten lines.
pub proof fn law_metadata_calls(
    p: &Package,
    out: &mut Vec<u8>,
    r: CDResult<()>,
    file: &str,
    there: bool,
)
    requires
        call_ensures(Package::append_copyright_metadata, (p, out), r),
        call_ensures(has_copyright_metadata, (file,), there),
    ensures
        r is Ok,
        final(out)@ == old(out)@ + encode_utf8(ended(metadata_lines(*p))),
        there <==> starts_with_field(lines(file@)),
{
    lemma_starts_with_field(file@);
    law_copyright_metadata_lines(*p);
}

/// What the package tells of its files.
pub proof fn law_package_calls(
    p: &Package,
    platform: &Platform,
    on_disk: &Vec<Option<u64>>,
    glob: String,
    size: u64,
    kind: Option<&'static str>,
    sources: Vec<&AssetSource>,
    paths: Vec<String>,
    built: Vec<usize>,
)
    requires
        call_ensures(Package::filename_glob, (p,), glob),
        call_ensures(Package::installed_size, (p, on_disk), size),
        call_ensures(Package::repository_type, (p,), kind),
        call_ensures(Package::all_binaries, (p, platform), sources),
        call_ensures(Package::binaries_to_resolve, (p, platform), paths),
        call_ensures(Package::built_binaries, (p, platform), built),
    ensures
        glob@ == p.deb_name@ + seq!['_', '*', '_'] + p.architecture@ + seq!['.', 'd', 'e', 'b'],
        size == installed_size(asset_views(p.assets.resolved@), on_disk@),
        p.repository is None ==> kind is None,
        p.repository matches Some(url) ==> {
            &&& kind is Some <==> vcs_kind(url@) is Some
            &&& kind is Some ==> vcs_kind(url@) == Some(kind->0@)
        },
        sources@.len() == binary_sources(p.assets.resolved@, platform.dll_suffix@).len(),
        forall|i: int|
            0 <= i < sources@.len() ==> *(#[trigger] sources@[i]) == binary_sources(
                p.assets.resolved@,
                platform.dll_suffix@,
            )[i],
        texts(paths@) == binary_paths(asset_views(p.assets.resolved@), platform.dll_suffix@),
        built@.len() == built_positions(
            asset_views(p.assets.resolved@),
            platform.dll_suffix@,
            p.assets.resolved@.len(),
        ).len(),
        forall|i: int|
            0 <= i < built@.len() ==> (#[trigger] built@[i]) as int == built_positions(
                asset_views(p.assets.resolved@),
                platform.dll_suffix@,
                p.assets.resolved@.len(),
            )[i],
{
    reveal_strlit("_*_");
    reveal_strlit(".deb");
    assert("_*_"@ =~= seq!['_', '*', '_']);
    assert(".deb"@ =~= seq!['.', 'd', 'e', 'b']);
    let s = sources@.map_values(|s: &AssetSource| *s);
    assert(s.len() == sources@.len());
    assert forall|i: int| 0 <= i < sources@.len() implies *(#[trigger] sources@[i])
        == binary_sources(p.assets.resolved@, platform.dll_suffix@)[i] by {
        assert(s[i] == *sources@[i]);
    }
    let b = built@.map_values(|k: usize| k as int);
    assert(b.len() == built@.len());
    assert forall|i: int| 0 <= i < built@.len() implies (#[trigger] built@[i]) as int
        == built_positions(
        asset_views(p.assets.resolved@),
        platform.dll_suffix@,
        p.assets.resolved@.len(),
    )[i] by {
        assert(b[i] == built@[i] as int);
    }
}

/// The architecture of a dependency is what stands in the brackets that count, behind the
/// exclamation mark that negates it, and the dependency what stands in front of them.
pub proof fn law_architecture_in_brackets(
    t: &str,
    r: CDResult<(String, Option<ArchSpec>)>,
    s: int,
    o: int,
    c: int,
)
    requires
        call_ensures(get_architecture_specification, (t,), r),
        first_bracketed(t@, s, o, c),
    ensures
        r is Ok,
        ({
            let (dep, spec) = r->Ok_0;
            &&& dep@ == trimmed(t@.subrange(s, o))
            &&& spec is Some
            &&& spec->0 is NegRequire <==> t@[o + 1] == '!'
            &&& spec->0 matches ArchSpec::NegRequire(name) ==> name@ == t@.subrange(o + 2, c)
            &&& spec->0 matches ArchSpec::Require(name) ==> name@ == t@.subrange(o + 1, c)
        }),
{
    lemma_first_bracketed(t@, s, o, c);
}

/// A dependency with no bracket that opens, or none that closes, has no architecture and is
/// left as it is.
pub proof fn law_no_architecture_is_read(t: &str, r: CDResult<(String, Option<ArchSpec>)>)
    requires
        call_ensures(get_architecture_specification, (t,), r),
        (forall|k: int| 0 <= k < t@.len() ==> (#[trigger] t@[k]) != '[') || (forall|k: int|
            0 <= k < t@.len() ==> (#[trigger] t@[k]) != ']'),
    ensures
        r is Ok,
        r->Ok_0.1 is None,
        ({
            let (dep, _) = r->Ok_0;
            dep@ == t@
        }),
{
    law_no_architecture(t@);
}

/// The architecture of the target is looked for among those that are named, and is to be found,
/// or, with an exclamation mark, not to be found there. Where it could not be looked for, that is
/// told.
pub proof fn law_architecture_matches(
    spec: &ArchSpec,
    target: &str,
    query: Vec<String>,
    output: &Attempt<bool>,
    r: CDResult<bool>,
)
    requires
        call_ensures(architecture_query, (spec, target), query),
        call_ensures(match_architecture, (spec, output), r),
    ensures
        query@.len() == 4,
        query@[0]@ == "-a"@ && query@[1]@ == target@ && query@[2]@ == "-i"@,
        *spec matches ArchSpec::Require(name) ==> query@[3]@ == name@,
        *spec matches ArchSpec::NegRequire(name) ==> query@[3]@ == name@,
        *output matches Err(e) ==> r is Err && r->Err_0@ == ErrorView::CommandFailed(
            e@,
            "dpkg-architecture"@,
        ),
        *output matches Ok(found) ==> r is Ok && (r->Ok_0 <==> (found <==> spec is Require)),
{
    let q = texts(query@);
    assert(q.len() == query@.len());
    assert(q[0] == query@[0]@ && q[1] == query@[1]@ && q[2] == query@[2]@ && q[3] == query@[3]@);
}

/// What is to be found out for the dependencies, and what they are then, is the same whether the
/// list is that of a package or stands alone.
pub proof fn law_dependency_calls(
    c: &Config,
    mine: Vec<DependencyRequest>,
    depends: &str,
    requests: Vec<DependencyRequest>,
    answers: &Vec<DependencyAnswer>,
    binaries: &Vec<String>,
    listener: &mut Vec<Notice>,
    r: CDResult<String>,
)
    requires
        call_ensures(Config::dependency_requests, (c,), mine),
        call_ensures(dependency_requests, (depends,), requests),
        call_ensures(collect_dependencies, (depends, answers, binaries, listener), r),
        depends@ == c.deb.depends@,
    ensures
        request_views(mine@) == requests_of(depends@),
        request_views(requests@) == requests_of(depends@),
        all_chosen(requests_of(depends@), answer_views(answers@)) matches Ok(list) ==> r is Ok
            && r->Ok_0@ == joined(distinct(list), ", "@),
        all_chosen(requests_of(depends@), answer_views(answers@)) matches Err(e) ==> r is Err
            && r->Err_0@ == e,
        notice_views(final(listener)@) == notice_views(old(listener)@) + all_warnings(
            requests_of(depends@),
            answer_views(answers@),
            texts(binaries@),
        ),
{
}

/// The dependencies of a package are those of its list, for the binaries among its assets.
pub proof fn law_package_dependencies(
    c: &Config,
    answers: &Vec<DependencyAnswer>,
    platform: &Platform,
    listener: &mut Vec<Notice>,
    r: CDResult<String>,
)
    requires
        call_ensures(Config::get_dependencies, (c, answers, platform, listener), r),
    ensures
        all_chosen(requests_of(c.deb.depends@), answer_views(answers@)) matches Ok(list) ==> r is Ok
            && r->Ok_0@ == joined(distinct(list), ", "@),
        all_chosen(requests_of(c.deb.depends@), answer_views(answers@)) matches Err(e)
            ==> r is Err && r->Err_0@ == e,
        notice_views(final(listener)@) == notice_views(old(listener)@) + all_warnings(
            requests_of(c.deb.depends@),
            answer_views(answers@),
            binary_paths(asset_views(c.deb.assets.resolved@), platform.dll_suffix@),
        ),
{
}

/// Flags for the assets of the package are added behind those that are there.
pub proof fn law_build_flags(c: &Config, flags: &mut Vec<String>, platform: &Platform)
    requires
        call_ensures(Config::extend_cargo_build_flags, (c, flags, platform), ()),
    ensures
        texts(final(flags)@) == texts(old(flags)@) + added_flags(
            c.deb.assets,
            texts(old(flags)@),
            *platform,
        ),
{
}

/// The variant that is taken is the first of its name; where there is none of that name, that is
/// told.
pub proof fn law_variant(
    variants: Option<Vec<(String, CargoDeb)>>,
    name: &str,
    r: CDResult<CargoDeb>,
)
    requires
        call_ensures(take_variant, (variants, name), r),
    ensures
        r matches Err(e) ==> e@ == ErrorView::VariantNotFound(name@),
        variants is None ==> r is Err,
        variants matches Some(list) ==> {
            &&& r is Err <==> forall|i: int| 0 <= i < list@.len() ==> (#[trigger] list@[i]).0@ != name@
            &&& forall|i: int|
                0 <= i < list@.len() && (#[trigger] list@[i]).0@ == name@ && (forall|j: int|
                    0 <= j < i ==> (#[trigger] list@[j]).0@ != name@) ==> r is Ok && r->Ok_0
                    == list@[i].1
        },
{
    if let Some(list) = variants {
        if let Ok(deb) = r {
            let k = choose|k: int|
                #[trigger] variant_at(list@, name@, k) && deb == list@[k].1;
            assert forall|i: int|
                0 <= i < list@.len() && (#[trigger] list@[i]).0@ == name@ && (forall|j: int|
                    0 <= j < i ==> (#[trigger] list@[j]).0@ != name@) implies deb == list@[i].1 by {
                assert(list@[k].0@ == name@);
                if i < k {
                    assert(list@[i].0@ != name@);
                } else if k < i {
                    assert(list@[k].0@ != name@);
                }
            }
        }
    }
}

/// The name of the package is that of the crate, byte by byte, with dashes for underscores and
/// small letters for capital ones, and all else as it is.
pub proof fn law_package_name_bytes(name: &str, r: String)
    requires
        call_ensures(debian_package_name, (name,), r),
    ensures
        r@.len() == encode_utf8(name@).len(),
        forall|i: int|
            0 <= i < r@.len() ==> {
                let b = encode_utf8(name@)[i];
                &&& b as char == '_' ==> (#[trigger] r@[i]) == '-'
                &&& 'A' <= b as char <= 'Z' ==> r@[i] as int == b + 32
                &&& b as char != '_' && !('A' <= b as char <= 'Z') ==> r@[i] as int == b
            },
{
}

/// One more configuration file adds a line with its path, with a slash in front.
pub proof fn law_conffiles_next(files: Vec<String>, more: Vec<String>, r: String, s: String)
    requires
        call_ensures(format_conffiles, (&files,), r),
        call_ensures(format_conffiles, (&more,), s),
        more@.len() == files@.len() + 1,
        more@.take(files@.len() as int) == files@,
    ensures
        ({
            let path = more@.last()@;
            &&& path.len() > 0 && path[0] == '/' ==> s@ == r@ + path + seq!['\n']
            &&& path.len() == 0 || path[0] != '/' ==> s@ == r@ + seq!['/'] + path + seq!['\n']
        }),
        files@.len() == 0 ==> r@.len() == 0,
{
    let path = more@.last()@;
    assert(texts(more@).drop_last() =~= texts(files@));
    assert(texts(more@).last() == path);
    if path.len() > 0 && path[0] == '/' {
        assert(s@ =~= r@ + path + seq!['\n']);
    } else {
        assert(s@ =~= r@ + seq!['/'] + path + seq!['\n']);
    }
}

/// What is told of assets, of files that were found, of units and of targets is what they hold.
pub proof fn law_views_hold_all(
    a: Asset,
    u: UnresolvedAsset,
    f: SourceFile,
    unit: FoundUnit,
    t: CargoMetadataTarget,
)
    ensures
        a@.c == a.c@ && a@.source == a.source@,
        a@.c.target_path == a.c.target_path@ && a@.c.chmod == a.c.chmod,
        a@.c.is_built == a.c.is_built && a@.c.is_example == a.c.is_example,
        a@.processed_from is Some <==> a.processed_from is Some,
        a.processed_from matches Some(p) ==> a@.processed_from->0.action == p.action@
            && a@.processed_from->0.original_path == opt_text(p.original_path),
        a.source matches AssetSource::Path(p) ==> a@.source == SourceView::Path(p@),
        a.source matches AssetSource::Symlink(p) ==> a@.source == SourceView::Symlink(p@),
        a.source matches AssetSource::Data(d) ==> a@.source == SourceView::Data(d@),
        u@.source_path == u.source_path@ && u@.c == u.c@,
        u@.c.target_path == u.c.target_path@ && u@.c.chmod == u.c.chmod,
        u@.c.is_built == u.c.is_built && u@.c.is_example == u.c.is_example,
        f@.path == f.path@ && f@.disk == f.disk && f@.is_dir == f.is_dir,
        unit@.source == unit.source@ && unit@.disk == unit.disk,
        unit@.target_path == unit.target_path@ && unit@.mode == unit.mode,
        t@.name == t.name@ && t@.src_path == t.src_path@,
        t@.kind == texts(t.kind@) && t@.crate_types == texts(t.crate_types@),
{
}

/// What is told of a layout is what it holds.
pub proof fn law_layout_view(layout: BuildLayout<'_>)
    ensures
        layout@.manifest_dir == layout.manifest_dir@,
        layout@.target_dir == layout.target_dir@,
        layout@.profile == layout.profile@,
        layout@.dll_prefix == layout.platform.dll_prefix@,
        layout@.dll_suffix == layout.platform.dll_suffix@,
        layout@.exe_suffix == layout.platform.exe_suffix@,
        layout@.targets.len() == layout.targets@.len(),
        forall|i: int|
            0 <= i < layout.targets@.len() ==> #[trigger] layout@.targets[i]
                == layout.targets@[i]@,
{
}

/// What is told of notices, errors, architectures, requests and answers is what they hold.
pub proof fn law_messages_hold_all(
    n: Notice,
    e: CargoDebError,
    spec: ArchSpec,
    q: DependencyRequest,
    a: DependencyAnswer,
    b: BinaryAnswer,
)
    ensures
        n matches Notice::Warning(t) ==> n@ == NoticeView::Warning(t@),
        n matches Notice::Info(t) ==> n@ == NoticeView::Info(t@),
        n matches Notice::Log(t) ==> n@ == NoticeView::Log(t@),
        e matches CargoDebError::Str(m) ==> e@ == ErrorView::Str(m@),
        e matches CargoDebError::VariantNotFound(v) ==> e@ == ErrorView::VariantNotFound(v@),
        e matches CargoDebError::AssetFileNotFound(p) ==> e@ == ErrorView::AssetFileNotFound(p@),
        e matches CargoDebError::NumParse(m, f) ==> e@ == ErrorView::NumParse(m@, f),
        e matches CargoDebError::Glob(m) ==> e@ == ErrorView::Glob(m@),
        e matches CargoDebError::IoFile(m, f, p) ==> e@ == ErrorView::IoFile(m@, f@, p@),
        e matches CargoDebError::CommandFailed(f, c) ==> e@ == ErrorView::CommandFailed(f@, c@),
        spec matches ArchSpec::Require(name) ==> spec@ == ArchView::Require(name@),
        spec matches ArchSpec::NegRequire(name) ==> spec@ == ArchView::NegRequire(name@),
        q is Auto <==> q@ is Auto,
        q matches DependencyRequest::Plain(d) ==> q@ == RequestView::Plain(d@),
        q matches DependencyRequest::Conditional(d, s) ==> q@ == RequestView::Conditional(d@, s@),
        a is Nothing <==> a@ is Nothing,
        a matches DependencyAnswer::Binaries(list) ==> a@ == AnswerView::Binaries(
            list@.map_values(|x: BinaryAnswer| x@),
        ),
        a matches DependencyAnswer::Command(Ok(found)) ==> a@ == AnswerView::Command(Ok(found)),
        a matches DependencyAnswer::Command(Err(reason)) ==> a@ == AnswerView::Command(Err(reason@)),
        b matches BinaryAnswer::Packages(list) ==> b@ == BinaryView::Packages(texts(list@)),
        b matches BinaryAnswer::Failed(reason) ==> b@ == BinaryView::Failed(reason@),
{
}

} // verus!
