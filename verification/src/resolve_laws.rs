//! What becomes of the files that are found for the assets of a manifest, told from what was
//! found and what the manifest says.

use vstd::prelude::*;
use crate::asset::{AssetView, SourceView, UnresolvedView};
use crate::error::ErrorView;
use crate::flags::{is_glob_char, is_pattern};
use crate::path::{components, law_strip_root, name_of, path_join, path_strip_prefix};
use crate::path_laws::{law_collect_components, law_starts_with_collected};
use crate::resolve::{
    leading_names, lemma_leading_names_first, pattern_base, resolve_all, resolved_asset,
    resolved_files, target_for, FileView,
};

verus! {

/// The text holds one of the characters that make it a pattern.
pub open spec fn holds_wildcard(p: Seq<char>) -> bool {
    exists|i: int|
        0 <= i < p.len() && ((#[trigger] p[i]) == '*' || p[i] == '[' || p[i] == ']' || p[i] == '!')
}

/// The place at which a file is installed for a target: in the target where that is a directory,
/// else under it, and seen from the root.
pub open spec fn installed_at(target: Seq<char>, file: Seq<char>) -> Seq<char> {
    let full = if target.len() > 0 && target.last() == '/' {
        path_join(target, name_of(file)->0)
    } else {
        target
    };
    match path_strip_prefix(full, seq!['/']) {
        Some(rel) => rel,
        None => full,
    }
}

/// The asset is made of the file, as its entry in the manifest says: a link that is to be kept,
/// or leads nowhere, stays a link, all else is a file. Mode, kind and the place come from the
/// entry, and below a pattern the place keeps the path from where the pattern starts.
pub open spec fn made_of(
    a: AssetView,
    u: UnresolvedView,
    file: FileView,
    preserve_symlinks: bool,
) -> bool {
    &&& !file.is_dir
    &&& a.source == (if file.disk.is_symlink && (preserve_symlinks || !file.disk.exists) {
        SourceView::Symlink(file.path)
    } else {
        SourceView::Path(file.path)
    })
    &&& a.processed_from is None
    &&& a.c.chmod == u.c.chmod
    &&& a.c.is_built == u.c.is_built
    &&& a.c.is_example == u.c.is_example
    &&& a.c.target_path == (if holds_wildcard(u.source_path) {
        installed_at(
            path_join(
                u.c.target_path,
                path_strip_prefix(file.path, pattern_base(u.source_path))->0,
            ),
            file.path,
        )
    } else {
        installed_at(u.c.target_path, file.path)
    })
}

/// The files that are no directories.
pub open spec fn plain_files(files: Seq<FileView>) -> Seq<FileView> {
    files.filter(|f: FileView| !f.is_dir)
}

/// Each file that is no directory becomes one asset, in the order of the files.
proof fn lemma_resolved_files(u: UnresolvedView, files: Seq<FileView>, preserve_symlinks: bool)
    ensures
        resolved_files(u, files, preserve_symlinks).len() == plain_files(files).len(),
        forall|k: int|
            0 <= k < plain_files(files).len() ==> made_of(
                #[trigger] resolved_files(u, files, preserve_symlinks)[k],
                u,
                plain_files(files)[k],
                preserve_symlinks,
            ),
    decreases files.len(),
{
    reveal(Seq::filter);
    if files.len() > 0 {
        let front = files.drop_last();
        lemma_resolved_files(u, front, preserve_symlinks);
        let last = files.last();
        let made = resolved_files(u, files, preserve_symlinks);
        if !last.is_dir {
            let n = plain_files(front).len() as int;
            assert(plain_files(files) =~= plain_files(front).push(last));
            lemma_installed_at(u, last, preserve_symlinks);
            assert forall|k: int| 0 <= k < plain_files(files).len() implies made_of(
                #[trigger] made[k],
                u,
                plain_files(files)[k],
                preserve_symlinks,
            ) by {
                if k < n {
                    assert(made[k] == resolved_files(u, front, preserve_symlinks)[k]);
                }
            }
        } else {
            assert(plain_files(files) =~= plain_files(front));
        }
    }
}

/// The asset that is made of a file is made of it.
proof fn lemma_installed_at(u: UnresolvedView, file: FileView, preserve_symlinks: bool)
    requires
        !file.is_dir,
    ensures
        made_of(
            resolved_asset(u, file, preserve_symlinks),
            u,
            file,
            preserve_symlinks,
        ),
{
    let raw = target_for(u, file.path);
    let full = if raw.len() > 0 && raw.last() == '/' {
        path_join(raw, name_of(file.path)->0)
    } else {
        raw
    };
    law_strip_root(full);
    lemma_wildcard(u.source_path);
}

/// What one more entry brings, behind entries that were resolved: each file that was found for
/// it, directories left out, becomes one asset, in the order in which they were found, and the
/// assets so far stay in front. Where nothing but directories was found, or the search failed,
/// that is the error, and no asset is added.
pub proof fn law_resolve_next(
    list: Seq<UnresolvedView>,
    u: UnresolvedView,
    searches: Seq<Result<Seq<FileView>, ErrorView>>,
    preserve_symlinks: bool,
)
    requires
        resolve_all(list, searches, preserve_symlinks).1 is None,
    ensures
        ({
            let before = resolve_all(list, searches, preserve_symlinks).0;
            let (after, error) = resolve_all(list.push(u), searches, preserve_symlinks);
            match searches[list.len() as int] {
                Err(e) => error == Some(e) && after == before,
                Ok(files) => if plain_files(files).len() == 0 {
                    error == Some(ErrorView::AssetFileNotFound(u.source_path)) && after == before
                } else {
                    &&& error is None
                    &&& after.len() == before.len() + plain_files(files).len()
                    &&& after.take(before.len() as int) == before
                    &&& forall|k: int|
                        0 <= k < plain_files(files).len() ==> made_of(
                            #[trigger] after[before.len() + k],
                            u,
                            plain_files(files)[k],
                            preserve_symlinks,
                        )
                },
            }
        }),
{
    let before = resolve_all(list, searches, preserve_symlinks).0;
    let after = resolve_all(list.push(u), searches, preserve_symlinks).0;
    assert(list.push(u).drop_last() =~= list);
    if let Ok(files) = searches[list.len() as int] {
        lemma_resolved_files(u, files, preserve_symlinks);
        let more = resolved_files(u, files, preserve_symlinks);
        if plain_files(files).len() > 0 {
            assert(after == before + more);
            assert(after.take(before.len() as int) =~= before);
            assert forall|k: int| 0 <= k < plain_files(files).len() implies made_of(
                #[trigger] after[before.len() + k],
                u,
                plain_files(files)[k],
                preserve_symlinks,
            ) by {
                assert(after[before.len() + k] == more[k]);
            }
        }
    }
}

/// Behind an entry that could not be resolved nothing more is found, and its error stays.
pub proof fn law_resolve_stops(
    list: Seq<UnresolvedView>,
    u: UnresolvedView,
    searches: Seq<Result<Seq<FileView>, ErrorView>>,
    preserve_symlinks: bool,
)
    requires
        resolve_all(list, searches, preserve_symlinks).1 is Some,
    ensures
        resolve_all(list.push(u), searches, preserve_symlinks) == resolve_all(
            list,
            searches,
            preserve_symlinks,
        ),
{
    assert(list.push(u).drop_last() =~= list);
}

/// Every asset that is resolved is made of a file that was found for some entry, with the mode
/// and kind of that entry; a link stays a link exactly where it is to be kept or leads nowhere.
pub proof fn law_resolved_sources(
    list: Seq<UnresolvedView>,
    searches: Seq<Result<Seq<FileView>, ErrorView>>,
    preserve_symlinks: bool,
)
    ensures
        forall|j: int|
            0 <= j < resolve_all(list, searches, preserve_symlinks).0.len() ==> exists|
                i: int,
                k: int,
            |
                0 <= i < list.len() && searches[i] is Ok && 0 <= k < searches[i]->Ok_0.len()
                    && made_of(
                    #[trigger] resolve_all(list, searches, preserve_symlinks).0[j],
                    #[trigger] list[i],
                    #[trigger] searches[i]->Ok_0[k],
                    preserve_symlinks,
                ),
    decreases list.len(),
{
    let all = resolve_all(list, searches, preserve_symlinks).0;
    if list.len() > 0 {
        let front = list.drop_last();
        let u = list.last();
        let n = front.len() as int;
        assert(front.push(u) =~= list);
        law_resolved_sources(front, searches, preserve_symlinks);
        let before = resolve_all(front, searches, preserve_symlinks);
        if before.1 is None {
            law_resolve_next(front, u, searches, preserve_symlinks);
        }
        assert forall|j: int| 0 <= j < all.len() implies exists|i: int, k: int|
            0 <= i < list.len() && searches[i] is Ok && 0 <= k < searches[i]->Ok_0.len()
                && made_of(
                #[trigger] all[j],
                #[trigger] list[i],
                #[trigger] searches[i]->Ok_0[k],
                preserve_symlinks,
            ) by {
            if j < before.0.len() {
                assert(all[j] == before.0[j]) by {
                    if before.1 is None {
                        assert(all.take(before.0.len() as int) == before.0);
                        assert(all.take(before.0.len() as int)[j] == all[j]);
                    }
                }
                let (i, k) = choose|i: int, k: int|
                    0 <= i < front.len() && searches[i] is Ok && 0 <= k < searches[i]->Ok_0.len()
                        && made_of(
                        before.0[j],
                        #[trigger] front[i],
                        #[trigger] searches[i]->Ok_0[k],
                        preserve_symlinks,
                    );
                assert(list[i] == front[i]);
                assert(made_of(all[j], list[i], searches[i]->Ok_0[k], preserve_symlinks));
            } else {
                let files = searches[n]->Ok_0;
                let m = j - before.0.len();
                let f = plain_files(files)[m];
                assert(made_of(all[before.0.len() + m], u, f, preserve_symlinks));
                lemma_plain_files(files);
                let k = choose|k: int| 0 <= k < files.len() && files[k] == f;
                assert(list[n] == u);
                assert(made_of(all[j], list[n], searches[n]->Ok_0[k], preserve_symlinks));
            }
        }
    }
}

/// Files that are no directories are among the files.
proof fn lemma_plain_files(files: Seq<FileView>)
    ensures
        forall|m: int|
            0 <= m < plain_files(files).len() ==> files.contains(#[trigger] plain_files(files)[m]),
    decreases files.len(),
{
    reveal(Seq::filter);
    if files.len() > 0 {
        let front = files.drop_last();
        lemma_plain_files(front);
        assert forall|m: int| 0 <= m < plain_files(files).len() implies files.contains(
            #[trigger] plain_files(files)[m],
        ) by {
            if m < plain_files(front).len() {
                let f = plain_files(front)[m];
                assert(plain_files(files)[m] == f);
                let k = choose|k: int| 0 <= k < front.len() && front[k] == f;
                assert(files[k] == f);
            } else {
                assert(files[files.len() - 1] == plain_files(files)[m]);
            }
        }
    }
}

/// A pattern starts from the directory of the components in front of the first one that holds a
/// wildcard: none of these holds one, and the next one does, unless there is none.
pub proof fn law_pattern_starts_at_wildcard(source: Seq<char>)
    ensures
        ({
            let base = components(pattern_base(source));
            let all = components(source);
            &&& base.is_prefix_of(all)
            &&& forall|i: int| 0 <= i < base.len() ==> !holds_wildcard(#[trigger] all[i])
            &&& base.len() < all.len() ==> holds_wildcard(all[base.len() as int])
        }),
{
    let all = components(source);
    lemma_leading_names_first(all);
    let n = leading_names(all).len() as int;
    law_collect_components(source, n);
    law_starts_with_collected(source, n);
    lemma_leading(all);
}

/// The leading names hold no wildcard, and the next name does.
proof fn lemma_leading(parts: Seq<Seq<char>>)
    ensures
        leading_names(parts).len() <= parts.len(),
        forall|i: int| 0 <= i < leading_names(parts).len() ==> !holds_wildcard(#[trigger] parts[i]),
        leading_names(parts).len() < parts.len() ==> holds_wildcard(
            parts[leading_names(parts).len() as int],
        ),
    decreases parts.len(),
{
    if parts.len() > 0 {
        lemma_wildcard(parts[0]);
        if !is_pattern(parts[0]) {
            let rest = parts.skip(1);
            lemma_leading(rest);
            assert forall|i: int| 0 <= i < leading_names(parts).len() implies !holds_wildcard(
                #[trigger] parts[i],
            ) by {
                if i > 0 {
                    assert(parts[i] == rest[i - 1]);
                }
            }
        }
    }
}

/// A pattern is a text with a wildcard.
pub proof fn lemma_wildcard(p: Seq<char>)
    ensures
        holds_wildcard(p) == is_pattern(p),
{
    if is_pattern(p) {
        let i = choose|i: int| 0 <= i < p.len() && is_glob_char(#[trigger] p[i]);
        assert(p[i] == p[i]);
    }
    if holds_wildcard(p) {
        let i = choose|i: int|
            0 <= i < p.len() && ((#[trigger] p[i]) == '*' || p[i] == '[' || p[i] == ']' || p[i]
                == '!');
        assert(is_glob_char(p[i]));
    }
}

} // verus!
