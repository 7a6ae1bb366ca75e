//! From the patterns for assets to the files that they name.

use vstd::prelude::*;
use vstd::string::*;
use crate::asset::{
    asset_views, can_place, new_asset, source_at, unresolved_views, Asset, AssetSource, AssetView,
    DiskStatus, UnresolvedAsset, UnresolvedView,
};
use crate::config::Config;
use crate::error::{CDResult, CargoDebError, ErrorView};
use crate::flags::{is_glob_pattern, is_pattern};
use crate::path::{
    components, components_of, join, path_collect, path_join, path_starts_with, path_strip_prefix,
    strip_prefix,
};
use crate::path_laws::{
    goes_on, law_collect_components, law_starts_with_collected, law_strip_joined,
};
use crate::text::texts;

verus! {

/// What was found at a path.
#[derive(Debug, Clone)]
pub struct SourceFile {
    pub path: String,
    pub is_dir: bool,
    pub disk: DiskStatus,
}

/// What was found at a path, with the path as a sequence.
pub struct FileView {
    pub path: Seq<char>,
    pub is_dir: bool,
    pub disk: DiskStatus,
}

impl View for SourceFile {
    type V = FileView;

    open spec fn view(&self) -> FileView {
        FileView { path: self.path@, is_dir: self.is_dir, disk: self.disk }
    }
}

/// The views of a list of files.
pub open spec fn file_views(list: Seq<SourceFile>) -> Seq<FileView> {
    list.map_values(|f: SourceFile| f@)
}

/// What came of a search for files.
pub open spec fn search_view(r: CDResult<Vec<SourceFile>>) -> Result<Seq<FileView>, ErrorView> {
    match r {
        Ok(v) => Ok(file_views(v@)),
        Err(e) => Err(e@),
    }
}

/// What came of a list of searches.
pub open spec fn search_views(list: Seq<CDResult<Vec<SourceFile>>>) -> Seq<
    Result<Seq<FileView>, ErrorView>,
> {
    list.map_values(|r: CDResult<Vec<SourceFile>>| search_view(r))
}

/// The components in front of the first that is a pattern.
pub open spec fn leading_names(parts: Seq<Seq<char>>) -> Seq<Seq<char>>
    decreases parts.len(),
{
    if parts.len() == 0 || is_pattern(parts[0]) {
        Seq::empty()
    } else {
        seq![parts[0]] + leading_names(parts.skip(1))
    }
}

/// The directory that a pattern starts from.
pub open spec fn pattern_base(source: Seq<char>) -> Seq<char> {
    path_collect(leading_names(components(source)))
}

/// The target of a file. What a pattern names keeps its path below the directory that the
/// pattern starts from.
pub open spec fn target_for(u: UnresolvedView, file: Seq<char>) -> Seq<char> {
    if is_pattern(u.source_path) {
        path_join(u.c.target_path, path_strip_prefix(file, pattern_base(u.source_path))->0)
    } else {
        u.c.target_path
    }
}

/// The file is below the directory that the pattern starts from, and can be made an asset.
pub open spec fn can_resolve(u: UnresolvedView, file: FileView, preserve_symlinks: bool) -> bool {
    &&& is_pattern(u.source_path) ==> path_starts_with(file.path, pattern_base(u.source_path))
    &&& can_place(
        source_at(file.path, preserve_symlinks, file.disk),
        target_for(u, file.path),
    )
}

/// The asset that a file is made.
pub open spec fn resolved_asset(
    u: UnresolvedView,
    file: FileView,
    preserve_symlinks: bool,
) -> AssetView {
    new_asset(
        source_at(file.path, preserve_symlinks, file.disk),
        target_for(u, file.path),
        u.c.chmod,
        u.c.is_built,
        u.c.is_example,
    )
}

/// The assets that files are made. Directories are passed over.
pub open spec fn resolved_files(
    u: UnresolvedView,
    files: Seq<FileView>,
    preserve_symlinks: bool,
) -> Seq<AssetView>
    decreases files.len(),
{
    if files.len() == 0 {
        Seq::empty()
    } else {
        let front = resolved_files(u, files.drop_last(), preserve_symlinks);
        if files.last().is_dir {
            front
        } else {
            front.push(resolved_asset(u, files.last(), preserve_symlinks))
        }
    }
}

/// The assets that an unresolved one becomes. There must be at least one.
pub open spec fn resolve_one(
    u: UnresolvedView,
    search: Result<Seq<FileView>, ErrorView>,
    preserve_symlinks: bool,
) -> Result<Seq<AssetView>, ErrorView> {
    match search {
        Err(e) => Err(e),
        Ok(files) => if resolved_files(u, files, preserve_symlinks).len() == 0 {
            Err(ErrorView::AssetFileNotFound(u.source_path))
        } else {
            Ok(resolved_files(u, files, preserve_symlinks))
        },
    }
}

/// The assets that unresolved ones become, up to the first that cannot be resolved, and why
/// that cannot be.
pub open spec fn resolve_all(
    list: Seq<UnresolvedView>,
    searches: Seq<Result<Seq<FileView>, ErrorView>>,
    preserve_symlinks: bool,
) -> (Seq<AssetView>, Option<ErrorView>)
    decreases list.len(),
{
    if list.len() == 0 {
        (Seq::empty(), None)
    } else {
        match resolve_all(list.drop_last(), searches, preserve_symlinks) {
            (front, Some(e)) => (front, Some(e)),
            (front, None) => match resolve_one(
                list.last(),
                searches[list.len() - 1],
                preserve_symlinks,
            ) {
                Ok(more) => (front + more, None),
                Err(e) => (front, Some(e)),
            },
        }
    }
}

/// All entries that are come to were searched for, and the files that were found for them can
/// be made assets.
pub open spec fn can_resolve_all(
    list: Seq<UnresolvedView>,
    searches: Seq<Result<Seq<FileView>, ErrorView>>,
    preserve_symlinks: bool,
) -> bool {
    forall|i: int|
        0 <= i < list.len() && resolve_all(
            #[trigger] list.take(i),
            searches,
            preserve_symlinks,
        ).1 is None ==> i < searches.len() && search_can_resolve(
            list[i],
            searches[i],
            preserve_symlinks,
        )
}

/// The files, but for directories, can be made assets.
pub open spec fn files_can_resolve(
    u: UnresolvedView,
    files: Seq<FileView>,
    preserve_symlinks: bool,
) -> bool {
    forall|k: int|
        0 <= k < files.len() && !(#[trigger] files[k]).is_dir ==> can_resolve(
            u,
            files[k],
            preserve_symlinks,
        )
}

/// What was found, if the search did not fail, can be made assets.
pub open spec fn search_can_resolve(
    u: UnresolvedView,
    search: Result<Seq<FileView>, ErrorView>,
    preserve_symlinks: bool,
) -> bool {
    match search {
        Ok(files) => files_can_resolve(u, files, preserve_symlinks),
        Err(_) => true,
    }
}

/// Nothing is resolved behind what cannot be resolved.
proof fn lemma_resolve_stops(
    list: Seq<UnresolvedView>,
    searches: Seq<Result<Seq<FileView>, ErrorView>>,
    preserve_symlinks: bool,
    n: int,
)
    requires
        0 <= n <= list.len(),
        resolve_all(list.take(n), searches, preserve_symlinks).1 is Some,
    ensures
        resolve_all(list, searches, preserve_symlinks) == resolve_all(
            list.take(n),
            searches,
            preserve_symlinks,
        ),
    decreases list.len() - n,
{
    if n == list.len() {
        assert(list.take(n) =~= list);
    } else {
        assert(list.take(n + 1).drop_last() =~= list.take(n));
        lemma_resolve_stops(list, searches, preserve_symlinks, n + 1);
    }
}

/// The names in front of the first pattern are those up to it.
proof fn lemma_leading_names(parts: Seq<Seq<char>>, n: int)
    requires
        0 <= n <= parts.len(),
        forall|k: int| 0 <= k < n ==> !is_pattern(#[trigger] parts[k]),
        n < parts.len() ==> is_pattern(parts[n]),
    ensures
        leading_names(parts) == parts.take(n),
    decreases n,
{
    if n == 0 {
        assert(parts.take(0) =~= Seq::empty());
    } else {
        let rest = parts.skip(1);
        assert forall|k: int| 0 <= k < n - 1 implies !is_pattern(#[trigger] rest[k]) by {
            assert(rest[k] == parts[k + 1]);
        }
        if n < parts.len() {
            assert(rest[n - 1] == parts[n]);
        }
        lemma_leading_names(rest, n - 1);
        assert(parts.take(n) =~= seq![parts[0]] + rest.take(n - 1));
        assert(!is_pattern(parts[0]));
    }
}

/// The names in front of the first pattern are the first ones.
pub proof fn lemma_leading_names_first(parts: Seq<Seq<char>>)
    ensures
        leading_names(parts).len() <= parts.len(),
        leading_names(parts) == parts.take(leading_names(parts).len() as int),
    decreases parts.len(),
{
    if parts.len() == 0 || is_pattern(parts[0]) {
        assert(parts.take(0) =~= Seq::empty());
    } else {
        lemma_leading_names_first(parts.skip(1));
        let n = leading_names(parts).len() as int;
        assert(parts.take(n) =~= seq![parts[0]] + parts.skip(1).take(n - 1));
    }
}

/// A pattern starts with the directory that it is said to start from.
pub proof fn law_pattern_base(source: Seq<char>)
    ensures
        path_starts_with(source, pattern_base(source)),
        components(pattern_base(source)) == leading_names(components(source)),
{
    lemma_leading_names_first(components(source));
    let n = leading_names(components(source)).len() as int;
    law_collect_components(source, n);
    law_starts_with_collected(source, n);
}

/// Files that a pattern names keep their places relative to each other: what lies at `rel`
/// below the directory that the pattern starts from is installed at `rel` below the target.
pub proof fn law_pattern_keeps_places(u: UnresolvedView, rel: Seq<char>)
    requires
        is_pattern(u.source_path),
        goes_on(rel),
    ensures
        target_for(u, path_join(pattern_base(u.source_path), rel)) == path_join(
            u.c.target_path,
            rel,
        ),
        path_starts_with(path_join(pattern_base(u.source_path), rel), pattern_base(u.source_path)),
{
    law_strip_joined(pattern_base(u.source_path), rel);
}

/// The assets of an entry are the files that were found for it, without the directories.
pub proof fn law_one_asset_per_file(
    u: UnresolvedView,
    files: Seq<FileView>,
    preserve_symlinks: bool,
)
    ensures
        resolved_files(u, files, preserve_symlinks) == files.filter(
            |f: FileView| !f.is_dir,
        ).map_values(|f: FileView| resolved_asset(u, f, preserve_symlinks)),
    decreases files.len(),
{
    reveal(Seq::filter);
    let found = files.filter(|f: FileView| !f.is_dir);
    if files.len() == 0 {
        assert(found.map_values(|f: FileView| resolved_asset(u, f, preserve_symlinks))
            =~= Seq::empty());
    } else {
        law_one_asset_per_file(u, files.drop_last(), preserve_symlinks);
        let front = files.drop_last().filter(|f: FileView| !f.is_dir);
        if !files.last().is_dir {
            assert(found =~= front.push(files.last()));
            assert(found.map_values(|f: FileView| resolved_asset(u, f, preserve_symlinks))
                =~= front.map_values(
                |f: FileView| resolved_asset(u, f, preserve_symlinks),
            ).push(resolved_asset(u, files.last(), preserve_symlinks)));
        }
    }
}

/// Where all is resolved, there is at least one asset for each entry.
pub proof fn law_entries_are_found(
    list: Seq<UnresolvedView>,
    searches: Seq<Result<Seq<FileView>, ErrorView>>,
    preserve_symlinks: bool,
)
    requires
        resolve_all(list, searches, preserve_symlinks).1 is None,
    ensures
        resolve_all(list, searches, preserve_symlinks).0.len() >= list.len(),
    decreases list.len(),
{
    if list.len() > 0 {
        law_entries_are_found(list.drop_last(), searches, preserve_symlinks);
    }
}

/// Once all is resolved nothing is left to be: another call finds nothing more, whatever was
/// searched for, and does not fail.
pub proof fn law_resolved_once(
    left: Seq<UnresolvedAsset>,
    searches: Seq<Result<Seq<FileView>, ErrorView>>,
    preserve_symlinks: bool,
)
    requires
        left.len() == 0,
    ensures
        can_resolve_all(unresolved_views(left), searches, preserve_symlinks),
        resolve_all(unresolved_views(left), searches, preserve_symlinks) == (
            Seq::<AssetView>::empty(),
            None::<ErrorView>,
        ),
{
}

/// Finds the directory that a pattern starts from.
pub fn find_pattern_base(source_path: &str) -> (r: String)
    ensures
        r@ == pattern_base(source_path@),
{
    let parts = components_of(source_path);
    let ghost all = components(source_path@);
    let mut r = String::new();
    let mut i: usize = 0;
    assert(texts(parts@).len() == parts@.len());
    while i < parts.len()
        invariant
            texts(parts@) == all,
            all == components(source_path@),
            all.len() == parts@.len(),
            i <= parts@.len(),
            forall|k: int| 0 <= k < i ==> !is_pattern(#[trigger] all[k]),
            r@ == path_collect(all.take(i as int)),
        decreases parts@.len() - i,
    {
        assert(all[i as int] == parts@[i as int]@);
        if is_glob_pattern(parts[i].as_str()) {
            proof {
                lemma_leading_names(all, i as int);
            }
            return r;
        }
        r = join(r.as_str(), parts[i].as_str());
        i += 1;
        assert(all.take(i as int).drop_last() =~= all.take(i - 1));
    }
    proof {
        lemma_leading_names(all, i as int);
    }
    r
}

/// The target of a file that was found for an unresolved asset, unless the file is not below
/// the directory that the pattern starts from.
pub fn target_of_file(asset: &UnresolvedAsset, file: &str) -> (r: Option<String>)
    ensures
        match r {
            Some(target) => {
                &&& is_pattern(asset.source_path@) ==> path_starts_with(
                    file@,
                    pattern_base(asset.source_path@),
                )
                &&& target@ == target_for(asset@, file@)
            },
            None => is_pattern(asset.source_path@) && !path_starts_with(
                file@,
                pattern_base(asset.source_path@),
            ),
        },
{
    if is_glob_pattern(asset.source_path.as_str()) {
        let source_prefix = find_pattern_base(asset.source_path.as_str());
        match strip_prefix(file, source_prefix.as_str()) {
            Some(rel) => Some(join(asset.c.target_path.as_str(), rel.as_str())),
            None => None,
        }
    } else {
        Some(asset.c.target_path.clone())
    }
}

/// Makes assets of the files that were found for an unresolved one.
fn resolve_files(
    asset: &UnresolvedAsset,
    files: &Vec<SourceFile>,
    preserve_symlinks: bool,
    resolved: &mut Vec<Asset>,
)
    requires
        files_can_resolve(asset@, file_views(files@), preserve_symlinks),
    ensures
        final(resolved)@.len() >= old(resolved)@.len(),
        final(resolved)@.take(old(resolved)@.len() as int) == old(resolved)@,
        asset_views(final(resolved)@) == asset_views(old(resolved)@) + resolved_files(
            asset@,
            file_views(files@),
            preserve_symlinks,
        ),
{
    let ghost start = resolved@;
    let ghost all = file_views(files@);
    let mut i: usize = 0;
    assert(asset_views(start) + resolved_files(asset@, all.take(0), preserve_symlinks)
        =~= asset_views(start));
    assert(start.take(start.len() as int) =~= start);
    while i < files.len()
        invariant
            all == file_views(files@),
            i <= files@.len(),
            files_can_resolve(asset@, all, preserve_symlinks),
            resolved@.len() >= start.len(),
            resolved@.take(start.len() as int) == start,
            asset_views(resolved@) == asset_views(start) + resolved_files(
                asset@,
                all.take(i as int),
                preserve_symlinks,
            ),
        decreases files@.len() - i,
    {
        let file = &files[i];
        let ghost sofar = asset_views(resolved@);
        let ghost before = resolved@;
        assert(all[i as int] == file@);
        assert(all.take(i + 1).drop_last() =~= all.take(i as int));
        assert(all.take(i + 1).last() == all[i as int]);
        if !file.is_dir {
            assert(can_resolve(asset@, file@, preserve_symlinks));
            let target_file = match target_of_file(asset, file.path.as_str()) {
                Some(target_file) => target_file,
                None => asset.c.target_path.clone(),
            };
            let a = Asset::new(
                AssetSource::from_path(file.path.clone(), preserve_symlinks, file.disk),
                target_file,
                asset.c.chmod,
                asset.c.is_built,
                asset.c.is_example,
            );
            resolved.push(a);
            assert(asset_views(resolved@) =~= sofar.push(a@));
            assert(resolved@.take(start.len() as int) =~= before.take(start.len() as int));
            assert(asset_views(resolved@) =~= asset_views(start) + resolved_files(
                asset@,
                all.take(i + 1),
                preserve_symlinks,
            ));
        }
        i += 1;
    }
    assert(all.take(i as int) =~= all);
}

impl Config {
    /// Makes assets of the files that were found for the unresolved ones: `matches` holds, for
    /// each of those up to the first that cannot be resolved, what a search for its source path
    /// found.
    pub fn resolve_assets(&mut self, matches: Vec<CDResult<Vec<SourceFile>>>) -> (r: CDResult<()>)
        requires
            can_resolve_all(
                unresolved_views(old(self).deb.assets.unresolved@),
                search_views(matches@),
                old(self).deb.preserve_symlinks,
            ),
        ensures
            ({
                let (found, error) = resolve_all(
                    unresolved_views(old(self).deb.assets.unresolved@),
                    search_views(matches@),
                    old(self).deb.preserve_symlinks,
                );
                let before = old(self).deb.assets.resolved@;
                let after = final(self).deb.assets.resolved@;
                &&& (match r {
                    Ok(_) => error is None,
                    Err(e) => error == Some(e@),
                })
                &&& final(self).deb.assets.unresolved@.len() == 0
                &&& asset_views(after) == asset_views(before) + found
                &&& after.len() >= before.len()
                &&& after.take(before.len() as int) == before
                &&& *final(self) == old(self).with_assets(final(self).deb.assets)
            }),
    {
        let preserve_symlinks = self.deb.preserve_symlinks;
        let ghost list = unresolved_views(self.deb.assets.unresolved@);
        let ghost searches = search_views(matches@);
        let ghost start = self.deb.assets.resolved@;
        let ghost given = matches@;
        let mut unresolved: Vec<UnresolvedAsset> = Vec::new();
        std::mem::swap(&mut unresolved, &mut self.deb.assets.unresolved);
        let mut resolved: Vec<Asset> = Vec::new();
        std::mem::swap(&mut resolved, &mut self.deb.assets.resolved);
        let mut matches = matches;
        let mut error: Option<CargoDebError> = None;
        let mut i: usize = 0;
        assert(asset_views(start) + resolve_all(list.take(0), searches, preserve_symlinks).0
            =~= asset_views(start));
        assert(start.take(start.len() as int) =~= start);
        assert(given.skip(0) =~= given);
        assert(list.len() == unresolved@.len() && searches.len() == given.len());
        while i < unresolved.len() && error.is_none()
            invariant
                i <= unresolved@.len(),
                list == unresolved_views(unresolved@),
                list.len() == unresolved@.len(),
                searches == search_views(given),
                searches.len() == given.len(),
                can_resolve_all(list, searches, preserve_symlinks),
                error is None ==> matches@ == given.skip(i as int),
                error is None ==> resolve_all(list.take(i as int), searches, preserve_symlinks).1
                    is None && asset_views(resolved@) == asset_views(start) + resolve_all(
                    list.take(i as int),
                    searches,
                    preserve_symlinks,
                ).0,
                error matches Some(e) ==> resolve_all(list, searches, preserve_symlinks).1
                    == Some(e@) && asset_views(resolved@) == asset_views(start) + resolve_all(
                    list,
                    searches,
                    preserve_symlinks,
                ).0,
                resolved@.len() >= start.len(),
                resolved@.take(start.len() as int) == start,
            decreases unresolved@.len() - i,
        {
            let ghost before = resolved@;
            assert(i < searches.len() && search_can_resolve(
                list[i as int],
                searches[i as int],
                preserve_symlinks,
            ));
            assert(given.skip(i as int)[0] == given[i as int]);
            assert(searches[i as int] == search_view(given[i as int]));
            assert(list[i as int] == unresolved@[i as int]@);
            assert(list.take(i + 1).drop_last() =~= list.take(i as int));
            assert(list.take(i + 1).last() == list[i as int]);
            let count: usize = resolved.len();
            let found = matches.remove(0);
            assert(matches@ =~= given.skip(i + 1));
            let asset = &unresolved[i];
            match found {
                Ok(files) => {
                    resolve_files(asset, &files, preserve_symlinks, &mut resolved);
                    let ghost more = resolved_files(asset@, file_views(files@), preserve_symlinks);
                    assert(asset_views(resolved@).len() == resolved@.len());
                    assert(asset_views(before).len() == before.len());
                    assert(resolved@.take(start.len() as int) =~= before.take(start.len() as int))
                        by {
                        assert(forall|k: int|
                            0 <= k < before.len() ==> #[trigger] before[k] == resolved@.take(
                                before.len() as int,
                            )[k]);
                    }
                    // If glob didn't match anything, it's likely an error
                    // as all files should exist when called to resolve
                    if resolved.len() == count {
                        proof {
                            lemma_resolve_stops(list, searches, preserve_symlinks, i + 1);
                            assert(more =~= Seq::empty());
                            assert(asset_views(resolved@) =~= asset_views(before));
                        }
                        error = Some(CargoDebError::AssetFileNotFound(asset.source_path.clone()));
                    } else {
                        assert(asset_views(resolved@) =~= asset_views(start) + resolve_all(
                            list.take(i + 1),
                            searches,
                            preserve_symlinks,
                        ).0);
                    }
                },
                Err(e) => {
                    proof {
                        lemma_resolve_stops(list, searches, preserve_symlinks, i + 1);
                    }
                    error = Some(e);
                },
            }
            i += 1;
        }
        assert(list.take(list.len() as int) =~= list);
        self.deb.assets.resolved = resolved;
        match error {
            Some(e) => Err(e),
            None => Ok(()),
        }
    }
}

} // verus!
