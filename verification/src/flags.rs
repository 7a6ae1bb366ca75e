//! What Cargo is told to build for a package.

use vstd::prelude::*;
use vstd::string::*;
use crate::asset::{
    executable, is_dynamic_library_filename, names_library, unresolved_views,
    AssetCommon, Assets, CommonView, IsBuilt, Platform, UnresolvedView,
};
use crate::config::Config;
use crate::path::{file_name, name_of};
use crate::text::{chars_of, same_text, strip_suffix, texts, without_suffix};

verus! {

/// A character that stands for more than itself in a pattern.
pub open spec fn is_glob_char(c: char) -> bool {
    c == '*' || c == '[' || c == ']' || c == '!'
}

/// The path is a pattern for paths.
pub open spec fn is_pattern(p: Seq<char>) -> bool {
    exists|i: int| 0 <= i < p.len() && is_glob_char(#[trigger] p[i])
}

/// Whether the path is a pattern for paths.
pub fn is_glob_pattern(s: &str) -> (r: bool)
    ensures
        r == is_pattern(s@),
{
    let v = chars_of(s);
    let mut i: usize = 0;
    while i < v.len()
        invariant
            v@ == s@,
            i <= v@.len(),
            forall|k: int| 0 <= k < i ==> !is_glob_char(#[trigger] s@[k]),
        decreases v@.len() - i,
    {
        let c = v[i];
        if c == '*' || c == '[' || c == ']' || c == '!' {
            assert(is_glob_char(s@[i as int]));
            return true;
        }
        i += 1;
    }
    false
}

/// What matters of an asset for the build: what it has in common with others, and its source.
pub struct BuildItem {
    pub c: CommonView,
    pub path: Option<Seq<char>>,
}

/// The assets of a package, resolved ones first.
pub open spec fn build_items(assets: Assets) -> Seq<BuildItem> {
    Seq::new(
        assets.resolved@.len(),
        |i: int|
            BuildItem {
                c: assets.resolved@[i].c@,
                path: assets.resolved@[i].source@.path(),
            },
    ) + Seq::new(
        assets.unresolved@.len(),
        |i: int|
            BuildItem {
                c: assets.unresolved@[i].c@,
                path: Some(assets.unresolved@[i].source_path@),
            },
    )
}

impl BuildItem {
    /// The asset has to be built.
    pub open spec fn is_built(self) -> bool {
        self.c.is_built != IsBuilt::No
    }

    /// The asset is a dynamic library, by its name here or there.
    pub open spec fn is_library(self, dll_suffix: Seq<char>) -> bool {
        names_library(self.c.target_path, dll_suffix) || (self.path matches Some(p)
            && names_library(p, dll_suffix))
    }

    /// The asset is an executable that has to be built.
    pub open spec fn is_program(self, dll_suffix: Seq<char>) -> bool {
        &&& self.is_built()
        &&& !self.is_library(dll_suffix)
        &&& executable(self.c.chmod)
        &&& self.path is Some
    }

    /// The name of the executable.
    pub open spec fn program(self, exe_suffix: Seq<char>) -> Seq<char> {
        without_suffix(name_of(self.path->0)->0, exe_suffix)
    }

    /// If the asset is an executable that has to be built, it has a name.
    pub open spec fn has_name(self, dll_suffix: Seq<char>) -> bool {
        self.is_program(dll_suffix) ==> name_of(self.path->0) is Some
    }
}

/// What has to be built.
pub struct NeedsView {
    pub bins: Seq<Seq<char>>,
    pub examples: Seq<Seq<char>>,
    pub libs: bool,
    pub same_package: bool,
}

/// What has to be built for the given assets.
pub open spec fn needs_of(
    items: Seq<BuildItem>,
    dll_suffix: Seq<char>,
    exe_suffix: Seq<char>,
) -> NeedsView
    decreases items.len(),
{
    if items.len() == 0 {
        NeedsView { bins: Seq::empty(), examples: Seq::empty(), libs: false, same_package: true }
    } else {
        with_item(
            needs_of(items.drop_last(), dll_suffix, exe_suffix),
            items.last(),
            dll_suffix,
            exe_suffix,
        )
    }
}

/// What has to be built with one more asset.
pub open spec fn with_item(
    n: NeedsView,
    item: BuildItem,
    dll_suffix: Seq<char>,
    exe_suffix: Seq<char>,
) -> NeedsView {
    NeedsView {
        bins: if item.is_program(dll_suffix) && !item.c.is_example {
            n.bins.push(item.program(exe_suffix))
        } else {
            n.bins
        },
        examples: if item.is_program(dll_suffix) && item.c.is_example {
            n.examples.push(item.program(exe_suffix))
        } else {
            n.examples
        },
        libs: n.libs || (item.is_built() && item.is_library(dll_suffix)),
        same_package: n.same_package && (item.is_built() ==> item.c.is_built
            == IsBuilt::SamePackage),
    }
}

/// The texts, each with the given one in front.
pub open spec fn prefixed(prefix: Seq<char>, list: Seq<Seq<char>>) -> Seq<Seq<char>> {
    list.map_values(|s: Seq<char>| prefix + s)
}

/// One text, where it is wanted.
pub open spec fn wanted(text: Seq<char>, yes: bool) -> Seq<Seq<char>> {
    if yes {
        seq![text]
    } else {
        Seq::empty()
    }
}

/// The flags with which Cargo builds what is needed.
pub open spec fn flags_for(n: NeedsView) -> Seq<Seq<char>> {
    wanted("--workspace"@, !n.same_package) + prefixed("--bin="@, n.bins) + prefixed(
        "--example="@,
        n.examples,
    ) + wanted("--lib"@, n.libs)
}

/// Everything is built already.
pub open spec fn builds_everything(flags: Seq<Seq<char>>) -> bool {
    flags.contains("--workspace"@) || flags.contains("--all"@)
}

/// Some asset that has to be built is named by a pattern.
pub open spec fn builds_pattern(unresolved: Seq<UnresolvedView>) -> bool {
    exists|i: int|
        0 <= i < unresolved.len() && (#[trigger] unresolved[i]).c.is_built != IsBuilt::No
            && is_pattern(unresolved[i].source_path)
}

/// The flags to add to those given. Where there is a pattern, everything is built.
pub open spec fn added_flags(assets: Assets, flags: Seq<Seq<char>>, platform: Platform) -> Seq<
    Seq<char>,
> {
    if builds_everything(flags) {
        Seq::empty()
    } else if builds_pattern(unresolved_views(assets.unresolved@)) {
        seq!["--workspace"@]
    } else {
        flags_for(
            needs_of(build_items(assets), platform.dll_suffix@, platform.exe_suffix@),
        )
    }
}

/// The executables that have to be built have names, where it comes to that.
pub open spec fn programs_have_names(
    assets: Assets,
    flags: Seq<Seq<char>>,
    dll_suffix: Seq<char>,
) -> bool {
    !builds_everything(flags) && !builds_pattern(unresolved_views(assets.unresolved@))
        ==> forall|i: int|
        0 <= i < build_items(assets).len() ==> (#[trigger] build_items(assets)[i]).has_name(
            dll_suffix,
        )
}

/// Where an asset comes from another package, the workspace is built; where one is a dynamic
/// library, the library is; and each executable is built under its name.
pub proof fn law_needs(items: Seq<BuildItem>, dll_suffix: Seq<char>, exe_suffix: Seq<char>)
    ensures
        ({
            let n = needs_of(items, dll_suffix, exe_suffix);
            &&& n.same_package <==> forall|i: int|
                0 <= i < items.len() && (#[trigger] items[i]).is_built() ==> items[i].c.is_built
                    == IsBuilt::SamePackage
            &&& n.libs <==> exists|i: int|
                0 <= i < items.len() && (#[trigger] items[i]).is_built() && items[i].is_library(
                    dll_suffix,
                )
            &&& forall|i: int|
                0 <= i < items.len() && (#[trigger] items[i]).is_program(dll_suffix) ==> (
                if items[i].c.is_example {
                    n.examples.contains(items[i].program(exe_suffix))
                } else {
                    n.bins.contains(items[i].program(exe_suffix))
                })
        }),
    decreases items.len(),
{
    let n = needs_of(items, dll_suffix, exe_suffix);
    if items.len() > 0 {
        let front = items.drop_last();
        let m = needs_of(front, dll_suffix, exe_suffix);
        law_needs(front, dll_suffix, exe_suffix);
        assert forall|i: int| 0 <= i < items.len() - 1 implies #[trigger] items[i] == front[i] by {}
        let last = items.last();
        assert(items[items.len() - 1] == last);
        assert forall|i: int|
            0 <= i < items.len() && (#[trigger] items[i]).is_program(dll_suffix) implies (
        if items[i].c.is_example {
            n.examples.contains(items[i].program(exe_suffix))
        } else {
            n.bins.contains(items[i].program(exe_suffix))
        }) by {
            let name = items[i].program(exe_suffix);
            if i < items.len() - 1 {
                assert(front[i].is_program(dll_suffix));
                if items[i].c.is_example {
                    let k = choose|k: int| 0 <= k < m.examples.len() && m.examples[k] == name;
                    assert(n.examples[k] == name);
                } else {
                    let k = choose|k: int| 0 <= k < m.bins.len() && m.bins[k] == name;
                    assert(n.bins[k] == name);
                }
            } else if last.c.is_example {
                assert(n.examples[n.examples.len() - 1] == name);
            } else {
                assert(n.bins[n.bins.len() - 1] == name);
            }
        }
        if n.libs {
            if m.libs {
                let i = choose|i: int|
                    0 <= i < front.len() && (#[trigger] front[i]).is_built()
                        && front[i].is_library(dll_suffix);
                assert(items[i].is_built() && items[i].is_library(dll_suffix));
            } else {
                assert(items[items.len() - 1].is_built());
            }
        }
        if exists|i: int|
            0 <= i < items.len() && (#[trigger] items[i]).is_built() && items[i].is_library(
                dll_suffix,
            ) {
            let i = choose|i: int|
                0 <= i < items.len() && (#[trigger] items[i]).is_built() && items[i].is_library(
                    dll_suffix,
                );
            if i < items.len() - 1 {
                assert(front[i].is_built() && front[i].is_library(dll_suffix));
            }
        }
        if n.same_package {
            assert forall|i: int|
                0 <= i < items.len() && (#[trigger] items[i]).is_built() implies items[i].c.is_built
                == IsBuilt::SamePackage by {
                if i < items.len() - 1 {
                    assert(front[i].is_built());
                }
            }
        }
        if forall|i: int|
            0 <= i < items.len() && (#[trigger] items[i]).is_built() ==> items[i].c.is_built
                == IsBuilt::SamePackage {
            assert forall|i: int|
                0 <= i < front.len() && (#[trigger] front[i]).is_built() implies front[i].c.is_built
                == IsBuilt::SamePackage by {
                assert(items[i].is_built());
            }
            assert(last.is_built() ==> items[items.len() - 1].c.is_built == IsBuilt::SamePackage);
        }
    }
}

/// What has to be built.
#[derive(Debug)]
pub struct BuildNeeds {
    pub bins: Vec<String>,
    pub examples: Vec<String>,
    pub libs: bool,
    pub same_package: bool,
}

impl View for BuildNeeds {
    type V = NeedsView;

    open spec fn view(&self) -> NeedsView {
        NeedsView {
            bins: texts(self.bins@),
            examples: texts(self.examples@),
            libs: self.libs,
            same_package: self.same_package,
        }
    }
}

impl BuildNeeds {
    /// Adds what has to be built for an asset.
    fn note(&mut self, c: &AssetCommon, path: Option<&String>, platform: &Platform)
        requires
            (BuildItem {
                c: c@,
                path: match path {
                    Some(p) => Some(p@),
                    None => None,
                },
            }).has_name(platform.dll_suffix@),
        ensures
            final(self)@ == with_item(
                old(self)@,
                BuildItem {
                    c: c@,
                    path: match path {
                        Some(p) => Some(p@),
                        None => None,
                    },
                },
                platform.dll_suffix@,
                platform.exe_suffix@,
            ),
    {
        let ghost bins = texts(self.bins@);
        let ghost examples = texts(self.examples@);
        if c.is_built == IsBuilt::No {
            return;
        }
        if c.is_built != IsBuilt::SamePackage {
            self.same_package = false;
        }
        let library = c.is_dynamic_library(platform) || (match path {
            Some(p) => is_dynamic_library_filename(p.as_str(), platform),
            None => false,
        });
        if library {
            self.libs = true;
        } else if c.is_executable() {
            if let Some(p) = path {
                if let Some(name) = file_name(p.as_str()) {
                    let name = strip_suffix(name.as_str(), platform.exe_suffix.as_str());
                    let ghost text = name@;
                    if c.is_example {
                        self.examples.push(name);
                        assert(texts(self.examples@) =~= examples.push(text));
                    } else {
                        self.bins.push(name);
                        assert(texts(self.bins@) =~= bins.push(text));
                    }
                }
            }
        }
    }
}

/// Finds out what has to be built for the assets.
fn find_needs(assets: &Assets, platform: &Platform) -> (r: BuildNeeds)
    requires
        forall|i: int|
            0 <= i < build_items(*assets).len() ==> (#[trigger] build_items(*assets)[i]).has_name(
                platform.dll_suffix@,
            ),
    ensures
        r@ == needs_of(build_items(*assets), platform.dll_suffix@, platform.exe_suffix@),
{
    let ghost items = build_items(*assets);
    let ghost dll = platform.dll_suffix@;
    let ghost exe = platform.exe_suffix@;
    let ghost n = assets.resolved@.len() as int;
    let mut needs = BuildNeeds {
        bins: Vec::new(),
        examples: Vec::new(),
        libs: false,
        same_package: true,
    };
    assert(texts(needs.bins@) =~= Seq::empty());
    assert(texts(needs.examples@) =~= Seq::empty());
    let mut i: usize = 0;
    while i < assets.resolved.len()
        invariant
            items == build_items(*assets),
            dll == platform.dll_suffix@,
            exe == platform.exe_suffix@,
            i <= assets.resolved@.len(),
            forall|k: int| 0 <= k < items.len() ==> (#[trigger] items[k]).has_name(dll),
            needs@ == needs_of(items.take(i as int), dll, exe),
        decreases assets.resolved@.len() - i,
    {
        let a = &assets.resolved[i];
        assert(items[i as int] == (BuildItem { c: a.c@, path: a.source@.path() }));
        assert(items.take(i + 1).drop_last() =~= items.take(i as int));
        assert(items.take(i + 1).last() == items[i as int]);
        needs.note(&a.c, a.source.path(), platform);
        i += 1;
    }
    let mut k: usize = 0;
    while k < assets.unresolved.len()
        invariant
            items == build_items(*assets),
            dll == platform.dll_suffix@,
            exe == platform.exe_suffix@,
            n == assets.resolved@.len(),
            k <= assets.unresolved@.len(),
            forall|l: int| 0 <= l < items.len() ==> (#[trigger] items[l]).has_name(dll),
            needs@ == needs_of(items.take(n + k), dll, exe),
        decreases assets.unresolved@.len() - k,
    {
        let a = &assets.unresolved[k];
        assert(items[n + k] == (BuildItem { c: a.c@, path: Some(a.source_path@) }));
        assert(items.take(n + k + 1).drop_last() =~= items.take(n + k));
        assert(items.take(n + k + 1).last() == items[n + k]);
        needs.note(&a.c, Some(&a.source_path), platform);
        k += 1;
    }
    assert(items.take(n + k) =~= items);
    needs
}

/// Appends texts, each with the given one in front.
fn push_prefixed(flags: &mut Vec<String>, prefix: &str, list: &Vec<String>)
    ensures
        texts(final(flags)@) == texts(old(flags)@) + prefixed(prefix@, texts(list@)),
{
    let ghost before = texts(flags@);
    let ghost added = prefixed(prefix@, texts(list@));
    let mut i: usize = 0;
    assert(before + added.take(0) =~= before);
    while i < list.len()
        invariant
            i <= list@.len(),
            added == prefixed(prefix@, texts(list@)),
            texts(flags@) == before + added.take(i as int),
        decreases list@.len() - i,
    {
        let ghost sofar = texts(flags@);
        let mut flag = prefix.to_owned();
        flag.append(list[i].as_str());
        let ghost text = flag@;
        flags.push(flag);
        i += 1;
        assert(texts(flags@) =~= sofar.push(text));
        assert(before + added.take(i as int) =~= sofar.push(text));
    }
    assert(added.take(i as int) =~= added);
}

/// Appends a flag.
fn push_flag(flags: &mut Vec<String>, flag: &str)
    ensures
        texts(final(flags)@) == texts(old(flags)@) + seq![flag@],
{
    let ghost before = texts(flags@);
    let flag = flag.to_owned();
    let ghost text = flag@;
    flags.push(flag);
    assert(texts(flags@) =~= before + seq![text]);
}

impl Config {
    /// Adds flags that make Cargo build what the assets need.
    pub fn extend_cargo_build_flags(&self, flags: &mut Vec<String>, platform: &Platform)
        requires
            programs_have_names(
                self.deb.assets,
                texts(old(flags)@),
                platform.dll_suffix@,
            ),
        ensures
            texts(final(flags)@) == texts(old(flags)@) + added_flags(
                self.deb.assets,
                texts(old(flags)@),
                *platform,
            ),
    {
        let ghost before = texts(flags@);
        assert(before + Seq::empty() =~= before);
        let mut i: usize = 0;
        while i < flags.len()
            invariant
                texts(flags@) == before,
                before == texts(old(flags)@),
                before + Seq::empty() == before,
                i <= flags@.len(),
                forall|k: int|
                    0 <= k < i ==> (#[trigger] before[k]) != "--workspace"@ && before[k] != "--all"@,
            decreases flags@.len() - i,
        {
            assert(before[i as int] == flags@[i as int]@);
            if same_text(flags[i].as_str(), "--workspace") || same_text(
                flags[i].as_str(),
                "--all",
            ) {
                assert(builds_everything(before));
                return;
            }
            i += 1;
        }
        assert(before.len() == flags@.len());
        assert(!builds_everything(before));
        let assets = &self.deb.assets;
        let ghost unresolved = unresolved_views(assets.unresolved@);
        let mut k: usize = 0;
        while k < assets.unresolved.len()
            invariant
                texts(flags@) == before,
                before == texts(old(flags)@),
                !builds_everything(before),
                assets == &self.deb.assets,
                unresolved == unresolved_views(assets.unresolved@),
                k <= assets.unresolved@.len(),
                forall|l: int|
                    0 <= l < k ==> !((#[trigger] unresolved[l]).c.is_built != IsBuilt::No
                        && is_pattern(unresolved[l].source_path)),
            decreases assets.unresolved@.len() - k,
        {
            let a = &assets.unresolved[k];
            assert(unresolved[k as int] == a@);
            if a.c.is_built != IsBuilt::No && is_glob_pattern(a.source_path.as_str()) {
                assert(builds_pattern(unresolved));
                push_flag(flags, "--workspace");
                return;
            }
            k += 1;
        }
        assert(!builds_pattern(unresolved));
        let needs = find_needs(assets, platform);
        if !needs.same_package {
            push_flag(flags, "--workspace");
        }
        assert(texts(flags@) =~= before + wanted("--workspace"@, !needs.same_package));
        push_prefixed(flags, "--bin=", &needs.bins);
        push_prefixed(flags, "--example=", &needs.examples);
        if needs.libs {
            push_flag(flags, "--lib");
        }
        assert(texts(flags@) =~= before + flags_for(needs@));
    }
}

/// Some asset is built by another package of the workspace.
pub open spec fn builds_other_package(assets: Assets) -> bool {
    exists|i: int|
        0 <= i < build_items(assets).len() && (#[trigger] build_items(assets)[i]).c.is_built
            == IsBuilt::Workspace
}

/// Where an asset is built by another package of the workspace, or one that is built is named
/// by a pattern, everything is built, so that a second call would add nothing.
pub proof fn law_other_packages_are_built(
    assets: Assets,
    flags: Seq<Seq<char>>,
    platform: Platform,
)
    requires
        builds_other_package(assets) || builds_pattern(unresolved_views(assets.unresolved@)),
    ensures
        builds_everything(flags + added_flags(assets, flags, platform)),
        added_flags(assets, flags + added_flags(assets, flags, platform), platform).len() == 0,
{
    let added = added_flags(assets, flags, platform);
    let all = flags + added;
    let n = flags.len() as int;
    if builds_everything(flags) {
        assert(all =~= flags);
    } else {
        if !builds_pattern(unresolved_views(assets.unresolved@)) {
            law_needs(build_items(assets), platform.dll_suffix@, platform.exe_suffix@);
            let i = choose|i: int|
                0 <= i < build_items(assets).len() && (#[trigger] build_items(
                    assets,
                )[i]).c.is_built == IsBuilt::Workspace;
            assert(build_items(assets)[i].is_built());
        }
        assert(added[0] == "--workspace"@);
        assert(all[n] == "--workspace"@);
    }
}

/// Flags are only added: those that were given stay in front.
pub proof fn law_flags_are_kept(assets: Assets, flags: Seq<Seq<char>>, platform: Platform)
    ensures
        flags.is_prefix_of(flags + added_flags(assets, flags, platform)),
        builds_everything(flags) ==> flags + added_flags(assets, flags, platform) == flags,
{
    let all = flags + added_flags(assets, flags, platform);
    assert(all.subrange(0, flags.len() as int) =~= flags);
    if builds_everything(flags) {
        assert(all =~= flags);
    }
}

} // verus!
