//! The flags that make Cargo build what a package needs, told from its assets.

use vstd::prelude::*;
use crate::asset::{unresolved_views, Assets, IsBuilt, Platform, SourceView};
use crate::flags::{
    added_flags, build_items, builds_everything, builds_pattern, is_glob_char, is_pattern, needs_of, prefixed,
    BuildItem,
};
use crate::path::name_of;
use crate::resolve_laws::holds_wildcard;

verus! {

/// The file at the path is a dynamic library by its name.
pub open spec fn is_library_name(p: Seq<char>, dll_suffix: Seq<char>) -> bool {
    match name_of(p) {
        Some(name) => dll_suffix.is_suffix_of(name),
        None => false,
    }
}

/// The asset asks for a dynamic library to be built: where it comes from or where it goes to is
/// named like one.
pub open spec fn asks_for_library(item: BuildItem, dll_suffix: Seq<char>) -> bool {
    &&& item.c.is_built != IsBuilt::No
    &&& {
        ||| is_library_name(item.c.target_path, dll_suffix)
        ||| item.path is Some && is_library_name(item.path->0, dll_suffix)
    }
}

/// The asset asks for an executable to be built.
pub open spec fn asks_for_program(item: BuildItem, dll_suffix: Seq<char>) -> bool {
    &&& item.c.is_built != IsBuilt::No
    &&& !asks_for_library(item, dll_suffix)
    &&& item.c.chmod & 0o111 != 0
    &&& item.path is Some
}

/// The name of the executable: that of its file, without the ending that executables have.
pub open spec fn program_name(item: BuildItem, exe_suffix: Seq<char>) -> Seq<char> {
    let name = name_of(item.path->0)->0;
    if exe_suffix.is_suffix_of(name) {
        name.take(name.len() - exe_suffix.len())
    } else {
        name
    }
}

/// The flags for the executables that the assets ask for, examples or others, in the order of
/// the assets.
pub open spec fn program_flags(
    items: Seq<BuildItem>,
    flag: Seq<char>,
    examples: bool,
    platform: Platform,
) -> Seq<Seq<char>> {
    items.filter(
        |i: BuildItem|
            asks_for_program(i, platform.dll_suffix@) && i.c.is_example == examples,
    ).map_values(|i: BuildItem| flag + program_name(i, platform.exe_suffix@))
}

/// Some asset that has to be built is named by a pattern.
pub open spec fn has_built_pattern(assets: Assets) -> bool {
    exists|i: int|
        0 <= i < assets.unresolved@.len() && {
            let u = #[trigger] assets.unresolved@[i];
            u.c.is_built != IsBuilt::No && holds_wildcard(u.source_path@)
        }
}

/// The assets that decide on what is built are the resolved ones, each with its mode and place
/// and the path that it comes from, if there is one, and behind them those that are not resolved.
pub proof fn law_build_items(assets: Assets)
    ensures
        build_items(assets).len() == assets.resolved@.len() + assets.unresolved@.len(),
        forall|i: int|
            0 <= i < assets.resolved@.len() ==> {
                let item = #[trigger] build_items(assets)[i];
                &&& item.c == assets.resolved@[i].c@
                &&& item.path == (match assets.resolved@[i].source@ {
                    SourceView::Path(p) => Some(p),
                    SourceView::Symlink(p) => Some(p),
                    SourceView::Data(_) => None,
                })
            },
        forall|i: int|
            assets.resolved@.len() <= i < build_items(assets).len() ==> {
                let item = #[trigger] build_items(assets)[i];
                let u = assets.unresolved@[i - assets.resolved@.len()];
                item.c == u.c@ && item.path == Some(u.source_path@)
            },
{
}

/// Where all is built already, nothing is added. Where a pattern is to be built, all is built.
/// Elsewhere all is built if an asset is built by another package, each executable that is asked
/// for has a flag with its name, first those that are no examples, and there is one flag more if
/// a dynamic library is asked for.
pub proof fn law_added_flags(assets: Assets, flags: Seq<Seq<char>>, platform: Platform)
    ensures
        ({
            let items = build_items(assets);
            let added = added_flags(assets, flags, platform);
            let bins = program_flags(items, "--bin="@, false, platform);
            let examples = program_flags(items, "--example="@, true, platform);
            let everything = exists|k: int|
                0 <= k < flags.len() && ((#[trigger] flags[k]) == "--workspace"@ || flags[k]
                    == "--all"@);
            let elsewhere = exists|i: int|
                0 <= i < items.len() && (#[trigger] items[i]).c.is_built == IsBuilt::Workspace;
            let library = exists|i: int|
                0 <= i < items.len() && asks_for_library(
                    #[trigger] items[i],
                    platform.dll_suffix@,
                );
            &&& everything ==> added == Seq::<Seq<char>>::empty()
            &&& !everything && has_built_pattern(assets) ==> added == seq!["--workspace"@]
            &&& !everything && !has_built_pattern(assets) ==> added == (if elsewhere {
                seq!["--workspace"@]
            } else {
                Seq::empty()
            }) + bins + examples + (if library {
                seq!["--lib"@]
            } else {
                Seq::empty()
            })
        }),
{
    let items = build_items(assets);
    let dll_suffix = platform.dll_suffix@;
    let everything = exists|k: int|
        0 <= k < flags.len() && ((#[trigger] flags[k]) == "--workspace"@ || flags[k] == "--all"@);
    assert(everything == builds_everything(flags)) by {
        if everything {
            let k = choose|k: int|
                0 <= k < flags.len() && ((#[trigger] flags[k]) == "--workspace"@ || flags[k]
                    == "--all"@);
            assert(flags.contains(flags[k]));
        }
    }
    lemma_built_pattern(assets);
    lemma_items(items, platform);
}

/// Two ways to say that a pattern has to be built.
pub proof fn lemma_built_pattern(assets: Assets)
    ensures
        has_built_pattern(assets) == builds_pattern(unresolved_views(assets.unresolved@)),
{
    let views = unresolved_views(assets.unresolved@);
    assert forall|i: int| 0 <= i < views.len() implies is_pattern(
        (#[trigger] views[i]).source_path,
    ) == holds_wildcard(assets.unresolved@[i].source_path@) by {
        let p = views[i].source_path;
        if is_pattern(p) {
            let k = choose|k: int| 0 <= k < p.len() && is_glob_char(#[trigger] p[k]);
            assert(p[k] == '*' || p[k] == '[' || p[k] == ']' || p[k] == '!');
        }
        if holds_wildcard(p) {
            let k = choose|k: int|
                0 <= k < p.len() && ((#[trigger] p[k]) == '*' || p[k] == '[' || p[k] == ']'
                    || p[k] == '!');
            assert(is_glob_char(p[k]));
        }
    }
    if has_built_pattern(assets) {
        let i = choose|i: int|
            0 <= i < assets.unresolved@.len() && {
                let u = #[trigger] assets.unresolved@[i];
                u.c.is_built != IsBuilt::No && holds_wildcard(u.source_path@)
            };
        assert(views[i].c.is_built != IsBuilt::No);
    }
    if builds_pattern(views) {
        let i = choose|i: int|
            0 <= i < views.len() && (#[trigger] views[i]).c.is_built != IsBuilt::No && is_pattern(
                views[i].source_path,
            );
        assert(assets.unresolved@[i].c.is_built != IsBuilt::No);
    }
}

/// One more asset adds at most one flag for an executable.
proof fn lemma_program_flags_push(
    front: Seq<BuildItem>,
    last: BuildItem,
    flag: Seq<char>,
    examples: bool,
    platform: Platform,
)
    ensures
        program_flags(Seq::empty(), flag, examples, platform) == Seq::<Seq<char>>::empty(),
        program_flags(front.push(last), flag, examples, platform) == (if asks_for_program(
            last,
            platform.dll_suffix@,
        ) && last.c.is_example == examples {
            program_flags(front, flag, examples, platform).push(
                flag + program_name(last, platform.exe_suffix@),
            )
        } else {
            program_flags(front, flag, examples, platform)
        }),
{
    reveal(Seq::filter);
    let asked = |i: BuildItem|
        asks_for_program(i, platform.dll_suffix@) && i.c.is_example == examples;
    let none = Seq::<BuildItem>::empty();
    assert(none.filter(asked) =~= none);
    assert(program_flags(none, flag, examples, platform) =~= Seq::empty());
    assert(front.push(last).drop_last() =~= front);
    if asked(last) {
        assert(front.push(last).filter(asked) =~= front.filter(asked).push(last));
        assert(program_flags(front.push(last), flag, examples, platform) =~= program_flags(
            front,
            flag,
            examples,
            platform,
        ).push(flag + program_name(last, platform.exe_suffix@)));
    } else {
        assert(front.push(last).filter(asked) =~= front.filter(asked));
    }
}

/// What the assets ask for, told from each of them.
proof fn lemma_items(items: Seq<BuildItem>, platform: Platform)
    ensures
        ({
            let n = needs_of(items, platform.dll_suffix@, platform.exe_suffix@);
            &&& prefixed("--bin="@, n.bins) == program_flags(items, "--bin="@, false, platform)
            &&& prefixed("--example="@, n.examples) == program_flags(
                items,
                "--example="@,
                true,
                platform,
            )
            &&& n.libs <==> exists|i: int|
                0 <= i < items.len() && asks_for_library(#[trigger] items[i], platform.dll_suffix@)
            &&& !n.same_package <==> exists|i: int|
                0 <= i < items.len() && (#[trigger] items[i]).c.is_built == IsBuilt::Workspace
        }),
    decreases items.len(),
{
    let dll_suffix = platform.dll_suffix@;
    let exe_suffix = platform.exe_suffix@;
    let n = needs_of(items, dll_suffix, exe_suffix);
    if items.len() == 0 {
        assert(items =~= Seq::empty());
        lemma_program_flags_push(items, arbitrary(), "--bin="@, false, platform);
        lemma_program_flags_push(items, arbitrary(), "--example="@, true, platform);
        assert(prefixed("--bin="@, n.bins) =~= Seq::empty());
        assert(prefixed("--example="@, n.examples) =~= Seq::empty());
    } else {
        let front = items.drop_last();
        let last = items.last();
        let m = needs_of(front, dll_suffix, exe_suffix);
        lemma_items(front, platform);
        assert(items =~= front.push(last));
        assert(last.is_program(dll_suffix) == asks_for_program(last, dll_suffix));
        assert(last.program(exe_suffix) =~= program_name(last, exe_suffix));
        let name = last.program(exe_suffix);
        lemma_program_flags_push(front, last, "--bin="@, false, platform);
        lemma_program_flags_push(front, last, "--example="@, true, platform);
        assert(prefixed("--bin="@, m.bins.push(name)) =~= prefixed("--bin="@, m.bins).push(
            "--bin="@ + name,
        ));
        assert(prefixed("--example="@, m.examples.push(name)) =~= prefixed(
            "--example="@,
            m.examples,
        ).push("--example="@ + name));
        assert((last.is_built() && last.is_library(dll_suffix)) == asks_for_library(
            last,
            dll_suffix,
        ));
        lemma_some(front, last, |i: BuildItem| asks_for_library(i, dll_suffix));
        lemma_some(front, last, |i: BuildItem| i.c.is_built == IsBuilt::Workspace);
    }
}

/// One of the items is so if one of the front ones or the last is.
proof fn lemma_some(front: Seq<BuildItem>, last: BuildItem, so: spec_fn(BuildItem) -> bool)
    ensures
        ({
            let items = front.push(last);
            (exists|i: int| 0 <= i < items.len() && so(#[trigger] items[i])) <==> (exists|i: int|
                0 <= i < front.len() && so(#[trigger] front[i])) || so(last)
        }),
{
    let items = front.push(last);
    if exists|i: int| 0 <= i < front.len() && so(#[trigger] front[i]) {
        let i = choose|i: int| 0 <= i < front.len() && so(#[trigger] front[i]);
        assert(so(items[i]));
    }
    if so(last) {
        assert(so(items[front.len() as int]));
    }
    if exists|i: int| 0 <= i < items.len() && so(#[trigger] items[i]) {
        let i = choose|i: int| 0 <= i < items.len() && so(#[trigger] items[i]);
        if i < front.len() {
            assert(so(front[i]));
        }
    }
}

} // verus!
