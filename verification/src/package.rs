//! The package to be made, and the files that describe it.

use vstd::prelude::*;
use vstd::string::*;
use vstd::utf8::encode_utf8;
use crate::asset::{
    asset_views, executable, names_library, size_of_source, Asset, AssetSource, AssetView, Assets,
    IsBuilt, Platform, SourceView,
};
use crate::error::CDResult;
use crate::manifest::SystemdUnitsConfig;
use crate::path::{components, same_path};
use crate::text::{
    contains, decimal, decimal_text, ends_with, hex, hex_text, index_from, lemma_encode_concat,
    lemma_index_from, lemma_index_from_is, lines, occurs, opt_text,
    push_bytes, same_text, split_lines, starts_with, texts, trim, trimmed, without_cr,
};

verus! {

/// The number of characters that a line of a description may take.
pub const DESCRIPTION_WIDTH: usize = 79;

#[derive(Debug)]
#[non_exhaustive]
pub struct Package {
    /// The name of the project to build
    pub name: String,
    /// The name to give the Debian package; usually the same as the Cargo project name
    pub deb_name: String,
    /// The version to give the Debian package; usually the same as the Cargo version
    pub deb_version: String,
    /// The software license of the project (SPDX format).
    pub license: Option<String>,
    /// The location of the license file
    pub license_file: Option<String>,
    /// number of lines to skip when reading `license_file`
    pub license_file_skip_lines: usize,
    /// The copyright of the project
    /// (Debian's `copyright` file contents).
    pub copyright: String,
    pub changelog: Option<String>,
    /// The homepage URL of the project.
    pub homepage: Option<String>,
    /// Documentation URL from `Cargo.toml`. Fallback if `homepage` is missing.
    pub documentation: Option<String>,
    /// The URL of the software repository.
    pub repository: Option<String>,
    /// A short description of the project.
    pub description: String,
    /// An extended description of the project.
    pub extended_description: Option<String>,
    /// The maintainer of the Debian package.
    /// In Debian `control` file `Maintainer` field format.
    pub maintainer: String,
    /// The Debian dependencies required to run the project.
    pub depends: String,
    /// The Debian pre-dependencies.
    pub pre_depends: Option<String>,
    /// The Debian recommended dependencies.
    pub recommends: Option<String>,
    /// The Debian suggested dependencies.
    pub suggests: Option<String>,
    /// The list of packages this package can enhance.
    pub enhances: Option<String>,
    /// The Debian software category to which the package belongs.
    pub section: Option<String>,
    /// The Debian priority of the project. Typically 'optional'.
    pub priority: String,
    /// `Conflicts` Debian control field.
    ///
    /// See [PackageTransition](https://wiki.debian.org/PackageTransition).
    pub conflicts: Option<String>,
    /// `Breaks` Debian control field.
    ///
    /// See [PackageTransition](https://wiki.debian.org/PackageTransition).
    pub breaks: Option<String>,
    /// `Replaces` Debian control field.
    ///
    /// See [PackageTransition](https://wiki.debian.org/PackageTransition).
    pub replaces: Option<String>,
    /// `Provides` Debian control field.
    ///
    /// See [PackageTransition](https://wiki.debian.org/PackageTransition).
    pub provides: Option<String>,
    /// The Debian architecture of the target system.
    pub architecture: String,
    /// A list of configuration files installed by the package.
    pub conf_files: Option<String>,
    /// All of the files that are to be packaged.
    pub assets: Assets,
    /// The location of the triggers file
    pub triggers_file: Option<String>,
    /// The path where possible maintainer scripts live
    pub maintainer_scripts: Option<String>,
    /// Should symlinks be preserved in the assets
    pub preserve_symlinks: bool,
    /// Details of how to install any systemd units
    pub systemd_units: Option<Vec<SystemdUnitsConfig>>,
    /// unix timestamp for generated files
    pub default_timestamp: u64,
}

/// A line that begins with a label.
pub open spec fn labelled(label: Seq<char>, value: Seq<char>) -> Seq<char> {
    label + value + seq!['\n']
}

/// A line that begins with a label, where there is a value for it.
pub open spec fn labelled_some(label: Seq<char>, value: Option<String>) -> Seq<char> {
    match value {
        Some(v) => labelled(label, v@),
        None => Seq::empty(),
    }
}

/// A line that begins with a label, where there is a value for it that is not blank. White
/// space around the value is left out.
pub open spec fn labelled_trimmed(label: Seq<char>, value: Option<String>) -> Seq<char> {
    match value {
        Some(v) => if trimmed(v@).len() > 0 {
            labelled(label, trimmed(v@))
        } else {
            Seq::empty()
        },
        None => Seq::empty(),
    }
}

/// The first of two values that there is.
pub open spec fn either(a: Option<String>, b: Option<String>) -> Option<String> {
    match a {
        Some(_) => a,
        None => b,
    }
}

/// The lines, each with a space in front.
pub open spec fn indented(list: Seq<Seq<char>>) -> Seq<char>
    decreases list.len(),
{
    if list.len() == 0 {
        Seq::empty()
    } else {
        indented(list.drop_last()) + labelled(seq![' '], list.last())
    }
}

/// The pattern of the names of the files that a package is written to.
pub open spec fn filename_pattern(p: Package) -> Seq<char> {
    p.deb_name@ + "_*_"@ + p.architecture@ + ".deb"@
}

/// Appends a line that begins with a label.
fn put_line(out: &mut String, label: &str, value: &str)
    ensures
        final(out)@ == old(out)@ + labelled(label@, value@),
{
    let ghost before = out@;
    out.append(label);
    out.append(value);
    out.push('\n');
    assert(out@ =~= before + labelled(label@, value@));
}

/// Appends a line that begins with a label, where there is a value for it.
fn put_some(out: &mut String, label: &str, value: &Option<String>)
    ensures
        final(out)@ == old(out)@ + labelled_some(label@, *value),
{
    match value {
        Some(v) => put_line(out, label, v.as_str()),
        None => {
            assert(out@ + Seq::empty() =~= out@);
        },
    }
}

/// Appends a line that begins with a label, where there is a value for it that is not blank.
fn put_trimmed(out: &mut String, label: &str, value: &Option<String>)
    ensures
        final(out)@ == old(out)@ + labelled_trimmed(label@, *value),
{
    match value {
        Some(v) => {
            let normalized = trim(v.as_str());
            if !normalized.as_str().is_empty() {
                put_line(out, label, normalized.as_str());
            } else {
                assert(out@ + Seq::empty() =~= out@);
            }
        },
        None => {
            assert(out@ + Seq::empty() =~= out@);
        },
    }
}

/// Appends lines with a space in front of each.
fn put_indented(out: &mut String, list: &Vec<String>)
    ensures
        final(out)@ == old(out)@ + indented(texts(list@)),
{
    let ghost before = out@;
    let mut i: usize = 0;
    proof {
        reveal_strlit(" ");
        assert(" "@ =~= seq![' ']);
        assert(before + indented(texts(list@).take(0)) =~= before);
    }
    while i < list.len()
        invariant
            i <= list@.len(),
            " "@ == seq![' '],
            out@ == before + indented(texts(list@).take(i as int)),
        decreases list@.len() - i,
    {
        put_line(out, " ", list[i].as_str());
        i += 1;
        assert(texts(list@).take(i as int).drop_last() =~= texts(list@).take(i - 1));
        assert(out@ =~= before + indented(texts(list@).take(i as int)));
    }
    assert(texts(list@).take(i as int) =~= texts(list@));
}

/// The kind of source control that a repository URL hints at.
pub open spec fn vcs_kind(repo: Seq<char>) -> Option<Seq<char>> {
    if "git+"@.is_prefix_of(repo) || ".git"@.is_suffix_of(repo) || occurs(repo, "git@"@) || occurs(
        repo,
        "github.com"@,
    ) || occurs(repo, "gitlab.com"@) {
        Some("Git"@)
    } else if "cvs+"@.is_prefix_of(repo) || occurs(repo, "pserver:"@) || occurs(repo, "@cvs."@) {
        Some("Cvs"@)
    } else if "hg+"@.is_prefix_of(repo) || occurs(repo, "hg@"@) || occurs(repo, "/hg."@) {
        Some("Hg"@)
    } else if "svn+"@.is_prefix_of(repo) || occurs(repo, "/svn."@) {
        Some("Svn"@)
    } else {
        None
    }
}

/// The lines of the control file about the repository.
pub open spec fn vcs_lines(repository: Option<String>) -> Seq<char> {
    match repository {
        Some(repo) => (if "http"@.is_prefix_of(repo@) {
            labelled("Vcs-Browser: "@, repo@)
        } else {
            Seq::empty()
        }) + (match vcs_kind(repo@) {
            Some(kind) => labelled("Vcs-"@ + kind + ": "@, repo@),
            None => Seq::empty(),
        }),
        None => Seq::empty(),
    }
}

/// The size that a file takes, in kilobytes: with one kilobyte of overhead, and rounded up.
pub open spec fn size_in_kb(size: Option<u64>) -> int {
    ((match size {
        Some(n) => n as int,
        None => 0int,
    }) + 2047) / 1024
}

/// The size that the assets take, in kilobytes, where `on_disk` are the sizes of the files
/// at their paths.
pub open spec fn installed_size(assets: Seq<AssetView>, on_disk: Seq<Option<u64>>) -> int
    decreases assets.len(),
{
    if assets.len() == 0 {
        0
    } else {
        let k = assets.len() - 1;
        installed_size(assets.drop_last(), on_disk) + size_in_kb(
            size_of_source(assets[k].source, on_disk[k]),
        )
    }
}

/// The sizes of the assets, and their sum, can be computed with 64 bits.
pub open spec fn sizes_fit(assets: Seq<AssetView>, on_disk: Seq<Option<u64>>) -> bool {
    &&& on_disk.len() == assets.len()
    &&& forall|i: int|
        0 <= i < assets.len() ==> (match size_of_source((#[trigger] assets[i]).source, on_disk[i]) {
            Some(n) => n + 2047 <= u64::MAX,
            None => true,
        })
    &&& installed_size(assets, on_disk) <= u64::MAX
}

/// Every file counts for at least a kilobyte.
pub proof fn law_installed_size(assets: Seq<AssetView>, on_disk: Seq<Option<u64>>)
    ensures
        installed_size(assets, on_disk) >= assets.len(),
    decreases assets.len(),
{
    if assets.len() > 0 {
        law_installed_size(assets.drop_last(), on_disk);
    }
}

/// Assets with the sizes of their files.
pub open spec fn sized(assets: Seq<AssetView>, on_disk: Seq<Option<u64>>) -> Seq<
    (AssetView, Option<u64>),
> {
    Seq::new(assets.len(), |i: int| (assets[i], on_disk[i]))
}

/// Any of the assets may be counted last.
proof fn lemma_installed_size_remove(assets: Seq<AssetView>, on_disk: Seq<Option<u64>>, k: int)
    requires
        assets.len() == on_disk.len(),
        0 <= k < assets.len(),
    ensures
        installed_size(assets, on_disk) == installed_size(assets.remove(k), on_disk.remove(k))
            + size_in_kb(size_of_source(assets[k].source, on_disk[k])),
    decreases assets.len(),
{
    let n = assets.len() - 1;
    let front = assets.drop_last();
    lemma_installed_size_prefix(front, on_disk, on_disk.drop_last());
    if k == n {
        assert(assets.remove(k) =~= front);
        assert(on_disk.remove(k) =~= on_disk.drop_last());
    } else {
        lemma_installed_size_remove(front, on_disk.drop_last(), k);
        let rest = assets.remove(k);
        let sizes = on_disk.remove(k);
        assert(rest.drop_last() =~= front.remove(k));
        lemma_installed_size_prefix(rest.drop_last(), sizes, on_disk.drop_last().remove(k));
        assert(rest[n - 1] == assets[n] && sizes[n - 1] == on_disk[n]);
    }
}

/// Only the sizes that belong to assets count.
proof fn lemma_installed_size_prefix(
    assets: Seq<AssetView>,
    a: Seq<Option<u64>>,
    b: Seq<Option<u64>>,
)
    requires
        assets.len() <= a.len(),
        assets.len() <= b.len(),
        forall|i: int| 0 <= i < assets.len() ==> a[i] == b[i],
    ensures
        installed_size(assets, a) == installed_size(assets, b),
    decreases assets.len(),
{
    if assets.len() > 0 {
        lemma_installed_size_prefix(assets.drop_last(), a, b);
    }
}

/// The installed size does not depend on the order of the assets.
pub proof fn law_installed_size_any_order(
    assets: Seq<AssetView>,
    on_disk: Seq<Option<u64>>,
    other_assets: Seq<AssetView>,
    other_on_disk: Seq<Option<u64>>,
)
    requires
        assets.len() == on_disk.len(),
        other_assets.len() == other_on_disk.len(),
        sized(assets, on_disk).to_multiset() == sized(other_assets, other_on_disk).to_multiset(),
    ensures
        installed_size(assets, on_disk) == installed_size(other_assets, other_on_disk),
    decreases assets.len(),
{
    broadcast use vstd::seq_lib::group_to_multiset_ensures;

    let a = sized(assets, on_disk);
    let b = sized(other_assets, other_on_disk);
    assert(a.len() == a.to_multiset().len() && b.len() == b.to_multiset().len());
    if assets.len() > 0 {
        let n = assets.len() - 1;
        assert(a.contains(a[n]));
        assert(a.to_multiset().count(a[n]) > 0);
        assert(b.contains(a[n]));
        let k = choose|k: int| 0 <= k < b.len() && b[k] == a[n];
        lemma_installed_size_remove(assets, on_disk, n);
        lemma_installed_size_remove(other_assets, other_on_disk, k);
        assert(sized(assets.remove(n), on_disk.remove(n)) =~= a.remove(n));
        assert(sized(other_assets.remove(k), other_on_disk.remove(k)) =~= b.remove(k));
        law_installed_size_any_order(
            assets.remove(n),
            on_disk.remove(n),
            other_assets.remove(k),
            other_on_disk.remove(k),
        );
    }
}

/// The size of some of the assets, from the first on, is no more than that of all.
pub proof fn lemma_installed_size_grows(assets: Seq<AssetView>, on_disk: Seq<Option<u64>>, i: int)
    requires
        0 <= i <= assets.len(),
    ensures
        0 <= installed_size(assets.take(i), on_disk) <= installed_size(assets, on_disk),
    decreases assets.len() - i,
{
    law_installed_size(assets.take(i), on_disk);
    if i == assets.len() {
        assert(assets.take(i) =~= assets);
    } else {
        lemma_installed_size_grows(assets, on_disk, i + 1);
        assert(assets.take(i + 1).drop_last() =~= assets.take(i));
    }
}

/// The lines of the control file in front of the installed size.
pub open spec fn control_head(p: Package) -> Seq<char> {
    labelled("Package: "@, p.deb_name@)
    + labelled("Version: "@, p.deb_version@)
    + labelled("Architecture: "@, p.architecture@)
    + vcs_lines(p.repository)
    + labelled_some("Homepage: "@, either(p.homepage, p.documentation))
    + labelled_some("Section: "@, p.section)
    + labelled("Priority: "@, p.priority@)
    + labelled("Maintainer: "@, p.maintainer@)
}

/// The line of the control file on the installed size.
pub open spec fn control_size(p: Package, on_disk: Seq<Option<u64>>) -> Seq<char> {
    labelled(
        "Installed-Size: "@,
        decimal(installed_size(asset_views(p.assets.resolved@), on_disk) as nat),
    )
}

/// The lines of the control file on the relations to other packages.
pub open spec fn control_relations(p: Package, deps: Seq<char>) -> Seq<char> {
    (if deps.len() > 0 { labelled("Depends: "@, deps) } else { Seq::empty() })
    + labelled_trimmed("Pre-Depends: "@, p.pre_depends)
    + labelled_trimmed("Recommends: "@, p.recommends)
    + labelled_trimmed("Suggests: "@, p.suggests)
    + labelled_trimmed("Enhances: "@, p.enhances)
    + labelled_some("Conflicts: "@, p.conflicts)
    + labelled_some("Breaks: "@, p.breaks)
    + labelled_some("Replaces: "@, p.replaces)
    + labelled_some("Provides: "@, p.provides)
}

/// The end of the control file: the descriptions, of which the extended one may be missing.
pub open spec fn control_description(
    p: Package,
    description: Seq<Seq<char>>,
    extended_description: Seq<Seq<char>>,
) -> Seq<char> {
    "Description:"@
    + indented(description)
    + (if p.extended_description is Some { indented(extended_description) } else { Seq::empty() })
    + seq!['\n']
}

/// The text of the control file. `deps` are the dependencies, `on_disk` the sizes of the
/// files of the assets, and the description and the extended description are given as the
/// lines that they take.
pub open spec fn control_text(
    p: Package,
    deps: Seq<char>,
    on_disk: Seq<Option<u64>>,
    description: Seq<Seq<char>>,
    extended_description: Seq<Seq<char>>,
) -> Seq<char> {
    control_head(p) + control_size(p, on_disk) + control_relations(p, deps) + control_description(
        p,
        description,
        extended_description,
    )
}

/// The control file begins with the name of the package and ends in a line feed.
pub proof fn law_control_text(
    p: Package,
    deps: Seq<char>,
    on_disk: Seq<Option<u64>>,
    description: Seq<Seq<char>>,
    extended_description: Seq<Seq<char>>,
)
    ensures
        labelled("Package: "@, p.deb_name@).is_prefix_of(
            control_text(p, deps, on_disk, description, extended_description),
        ),
        control_text(p, deps, on_disk, description, extended_description).last() == '\n',
{
    let t = control_text(p, deps, on_disk, description, extended_description);
    let first = labelled("Package: "@, p.deb_name@);
    assert(t.subrange(0, first.len() as int) =~= first);
}

/// Two packages have the same text for what the control file says, apart from the installed
/// size. What else they hold may differ, and so may the white space around relations, and where
/// a homepage comes from.
pub open spec fn same_control(p: Package, q: Package) -> bool {
    &&& p.deb_name@ == q.deb_name@
    &&& p.deb_version@ == q.deb_version@
    &&& p.architecture@ == q.architecture@
    &&& opt_text(p.repository) == opt_text(q.repository)
    &&& opt_text(either(p.homepage, p.documentation)) == opt_text(
        either(q.homepage, q.documentation),
    )
    &&& opt_text(p.section) == opt_text(q.section)
    &&& p.priority@ == q.priority@
    &&& p.maintainer@ == q.maintainer@
    &&& trimmed_text(p.pre_depends) == trimmed_text(q.pre_depends)
    &&& trimmed_text(p.recommends) == trimmed_text(q.recommends)
    &&& trimmed_text(p.suggests) == trimmed_text(q.suggests)
    &&& trimmed_text(p.enhances) == trimmed_text(q.enhances)
    &&& opt_text(p.conflicts) == opt_text(q.conflicts)
    &&& opt_text(p.breaks) == opt_text(q.breaks)
    &&& opt_text(p.replaces) == opt_text(q.replaces)
    &&& opt_text(p.provides) == opt_text(q.provides)
    &&& p.extended_description is Some == q.extended_description is Some
}

/// A text without the white space around it; empty where there is none.
pub open spec fn trimmed_text(value: Option<String>) -> Seq<char> {
    match value {
        Some(v) => trimmed(v@),
        None => Seq::empty(),
    }
}

/// The control file depends on nothing but what it says: not on the order of the assets, nor on
/// what it does not name.
pub proof fn law_control_text_any_order(
    p: Package,
    on_disk: Seq<Option<u64>>,
    other: Package,
    other_on_disk: Seq<Option<u64>>,
    deps: Seq<char>,
    description: Seq<Seq<char>>,
    extended_description: Seq<Seq<char>>,
)
    requires
        same_control(p, other),
        p.assets.resolved@.len() == on_disk.len(),
        other.assets.resolved@.len() == other_on_disk.len(),
        sized(asset_views(p.assets.resolved@), on_disk).to_multiset() == sized(
            asset_views(other.assets.resolved@),
            other_on_disk,
        ).to_multiset(),
    ensures
        control_text(p, deps, on_disk, description, extended_description) == control_text(
            other,
            deps,
            other_on_disk,
            description,
            extended_description,
        ),
{
    law_installed_size_any_order(
        asset_views(p.assets.resolved@),
        on_disk,
        asset_views(other.assets.resolved@),
        other_on_disk,
    );
    assert(control_head(p) == control_head(other)) by {
        assert(vcs_lines(p.repository) == vcs_lines(other.repository));
    }
    assert(control_relations(p, deps) == control_relations(other, deps)) by {
        lemma_labelled_trimmed("Pre-Depends: "@, p.pre_depends, other.pre_depends);
        lemma_labelled_trimmed("Recommends: "@, p.recommends, other.recommends);
        lemma_labelled_trimmed("Suggests: "@, p.suggests, other.suggests);
        lemma_labelled_trimmed("Enhances: "@, p.enhances, other.enhances);
    }
}

/// Only what is not blank counts in a line.
proof fn lemma_labelled_trimmed(label: Seq<char>, a: Option<String>, b: Option<String>)
    requires
        trimmed_text(a) == trimmed_text(b),
    ensures
        labelled_trimmed(label, a) == labelled_trimmed(label, b),
{
}

impl Package {
    /// The pattern of the names of the files that the package is written to, for any version.
    pub fn filename_glob(&self) -> (r: String)
        ensures
            r@ == filename_pattern(*self),
    {
        let mut r = self.deb_name.clone();
        r.append("_*_");
        r.append(self.architecture.as_str());
        r.append(".deb");
        r
    }

    /// The size that the assets take, in kilobytes.
    pub fn installed_size(&self, on_disk: &Vec<Option<u64>>) -> (r: u64)
        requires
            sizes_fit(asset_views(self.assets.resolved@), on_disk@),
        ensures
            r == installed_size(asset_views(self.assets.resolved@), on_disk@),
    {
        let ghost assets = asset_views(self.assets.resolved@);
        let mut total: u64 = 0;
        let mut i: usize = 0;
        while i < self.assets.resolved.len()
            invariant
                assets == asset_views(self.assets.resolved@),
                sizes_fit(assets, on_disk@),
                i <= assets.len(),
                total == installed_size(assets.take(i as int), on_disk@),
            decreases assets.len() - i,
        {
            assert(assets[i as int] == self.assets.resolved@[i as int]@);
            let size: u64 = self.assets.resolved[i].source.file_size(on_disk[i]).unwrap_or(0);
            proof {
                lemma_installed_size_grows(assets, on_disk@, i + 1);
                assert(assets.take(i + 1).drop_last() =~= assets.take(i as int));
            }
            // assume 1KB of fs overhead per file
            total = total + (size + 2047) / 1024;
            i += 1;
        }
        assert(assets.take(i as int) =~= assets);
        total
    }

    /// Generates the control file that obtains all the important information about the package.
    /// `deps` are the dependencies, `on_disk` the sizes of the files of the assets, as far as
    /// they could be found out. The description and the extended description are given as the
    /// lines that they take when they are wrapped at [`DESCRIPTION_WIDTH`].
    pub fn generate_control(
        &self,
        deps: &str,
        on_disk: &Vec<Option<u64>>,
        description: &Vec<String>,
        extended_description: &Vec<String>,
    ) -> (r: CDResult<Vec<u8>>)
        requires
            sizes_fit(asset_views(self.assets.resolved@), on_disk@),
        ensures
            r matches Ok(bytes) && bytes@ == encode_utf8(
                control_text(
                    *self,
                    deps@,
                    on_disk@,
                    texts(description@),
                    texts(extended_description@),
                ),
            ),
    {
        let mut control = String::new();

        // Write all of the lines required by the control file.
        self.put_head(&mut control);
        assert(control@ =~= control_head(*self));
        let installed_size: u64 = self.installed_size(on_disk);
        put_line(&mut control, "Installed-Size: ", decimal_text(installed_size).as_str());
        self.put_relations(&mut control, deps);
        self.put_description(&mut control, description, extended_description);
        Ok(control.as_str().as_bytes_vec())
    }

    /// Appends the lines of the control file in front of the installed size.
    fn put_head(&self, control: &mut String)
        ensures
            final(control)@ == old(control)@ + control_head(*self),
    {
        let ghost before = control@;
        put_line(control, "Package: ", self.deb_name.as_str());
        put_line(control, "Version: ", self.deb_version.as_str());
        put_line(control, "Architecture: ", self.architecture.as_str());
        self.put_repository(control);
        if self.homepage.is_some() {
            put_some(control, "Homepage: ", &self.homepage);
        } else {
            put_some(control, "Homepage: ", &self.documentation);
        }
        put_some(control, "Section: ", &self.section);
        put_line(control, "Priority: ", self.priority.as_str());
        put_line(control, "Maintainer: ", self.maintainer.as_str());
        assert(control@ =~= before + control_head(*self));
    }

    /// Appends the lines of the control file on the relations to other packages.
    fn put_relations(&self, control: &mut String, deps: &str)
        ensures
            final(control)@ == old(control)@ + control_relations(*self, deps@),
    {
        let ghost before = control@;
        if !deps.is_empty() {
            put_line(control, "Depends: ", deps);
        } else {
            assert(control@ + Seq::empty() =~= control@);
        }
        put_trimmed(control, "Pre-Depends: ", &self.pre_depends);
        put_trimmed(control, "Recommends: ", &self.recommends);
        put_trimmed(control, "Suggests: ", &self.suggests);
        put_trimmed(control, "Enhances: ", &self.enhances);
        put_some(control, "Conflicts: ", &self.conflicts);
        put_some(control, "Breaks: ", &self.breaks);
        put_some(control, "Replaces: ", &self.replaces);
        put_some(control, "Provides: ", &self.provides);
        assert(control@ =~= before + control_relations(*self, deps@));
    }

    /// Appends the end of the control file.
    fn put_description(
        &self,
        control: &mut String,
        description: &Vec<String>,
        extended_description: &Vec<String>,
    )
        ensures
            final(control)@ == old(control)@ + control_description(
                *self,
                texts(description@),
                texts(extended_description@),
            ),
    {
        let ghost before = control@;
        control.append("Description:");
        put_indented(control, description);
        if self.extended_description.is_some() {
            put_indented(control, extended_description);
        } else {
            assert(control@ + Seq::empty() =~= control@);
        }
        control.push('\n');
        assert(control@ =~= before + control_description(
            *self,
            texts(description@),
            texts(extended_description@),
        ));
    }

    /// Appends the lines of the control file about the repository.
    fn put_repository(&self, control: &mut String)
        ensures
            final(control)@ == old(control)@ + vcs_lines(self.repository),
    {
        let ghost before = control@;
        if let Some(repo) = &self.repository {
            if starts_with(repo.as_str(), "http") {
                put_line(control, "Vcs-Browser: ", repo.as_str());
            }
            if let Some(kind) = self.repository_type() {
                let mut label = "Vcs-".to_owned();
                label.append(kind);
                label.append(": ");
                put_line(control, label.as_str(), repo.as_str());
            }
        }
        assert(control@ =~= before + vcs_lines(self.repository));
    }

    /// Tries to guess type of source control used for the repo URL.
    /// It's a guess, and it won't be 100% accurate, because Cargo suggests using
    /// user-friendly URLs or webpages instead of tool-specific URL schemes.
    pub fn repository_type(&self) -> (r: Option<&'static str>)
        ensures
            (match r {
                Some(kind) => Some(kind@),
                None => None,
            }) == (match self.repository {
                Some(repo) => vcs_kind(repo@),
                None => None,
            }),
    {
        if let Some(repo) = &self.repository {
            let repo = repo.as_str();
            if starts_with(repo, "git+") || ends_with(repo, ".git") || contains(repo, "git@")
                || contains(repo, "github.com") || contains(repo, "gitlab.com") {
                return Some("Git");
            }
            if starts_with(repo, "cvs+") || contains(repo, "pserver:") || contains(
                repo,
                "@cvs.",
            ) {
                return Some("Cvs");
            }
            if starts_with(repo, "hg+") || contains(repo, "hg@") || contains(repo, "/hg.") {
                return Some("Hg");
            }
            if starts_with(repo, "svn+") || contains(repo, "/svn.") {
                return Some("Svn");
            }
            return None;
        }
        None
    }
}

/// The digest that a list of digests gives for a path: that of the first entry with the
/// same components.
pub open spec fn digest_for(hashes: Seq<(String, [u8; 32])>, path: Seq<char>) -> Option<Seq<u8>>
    decreases hashes.len(),
{
    if hashes.len() == 0 {
        None
    } else if components(hashes[0].0@) == components(path) {
        Some(hashes[0].1@)
    } else {
        digest_for(hashes.skip(1), path)
    }
}

/// The line about one asset, where there is a digest for it.
pub open spec fn digest_line(a: AssetView, hashes: Seq<(String, [u8; 32])>) -> Seq<char> {
    match digest_for(hashes, a.c.target_path) {
        Some(digest) => hex(digest) + "  "@ + a.c.target_path + seq!['\n'],
        None => Seq::empty(),
    }
}

/// The list of the digests of the assets.
pub open spec fn digest_lines(assets: Seq<AssetView>, hashes: Seq<(String, [u8; 32])>) -> Seq<char>
    decreases assets.len(),
{
    if assets.len() == 0 {
        Seq::empty()
    } else {
        digest_lines(assets.drop_last(), hashes) + digest_line(assets.last(), hashes)
    }
}

/// Two digits stand for each byte.
pub proof fn law_hex_length(bytes: Seq<u8>)
    ensures
        hex(bytes).len() == 2 * bytes.len(),
    decreases bytes.len(),
{
    if bytes.len() > 0 {
        law_hex_length(bytes.drop_last());
    }
}

/// Assets without a digest, such as symlinks, are left out of the list.
pub proof fn law_digest_lines_filter(assets: Seq<AssetView>, hashes: Seq<(String, [u8; 32])>)
    ensures
        digest_lines(assets, hashes) == digest_lines(
            assets.filter(|a: AssetView| digest_for(hashes, a.c.target_path) is Some),
            hashes,
        ),
    decreases assets.len(),
{
    let listed = |a: AssetView| digest_for(hashes, a.c.target_path) is Some;
    reveal(Seq::filter);
    if assets.len() > 0 {
        let front = assets.drop_last();
        law_digest_lines_filter(front, hashes);
        if listed(assets.last()) {
            assert(assets.filter(listed).drop_last() =~= front.filter(listed));
        } else {
            assert(digest_lines(front, hashes) + Seq::empty() =~= digest_lines(front, hashes));
        }
    }
}

/// Finds the digest for a path.
fn find_digest(hashes: &Vec<(String, [u8; 32])>, path: &str) -> (r: Option<usize>)
    ensures
        match r {
            Some(k) => k < hashes@.len() && digest_for(hashes@, path@) == Some(
                hashes@[k as int].1@,
            ),
            None => digest_for(hashes@, path@) is None,
        },
{
    let mut k: usize = 0;
    assert(hashes@.skip(0) =~= hashes@);
    while k < hashes.len()
        invariant
            k <= hashes@.len(),
            digest_for(hashes@, path@) == digest_for(hashes@.skip(k as int), path@),
        decreases hashes@.len() - k,
    {
        if same_path(hashes[k].0.as_str(), path) {
            return Some(k);
        }
        assert(hashes@.skip(k as int).skip(1) =~= hashes@.skip(k + 1));
        k += 1;
    }
    None
}

impl Package {
    /// Creates the sha256sums file which contains a list of all contained files and the sha256sums of each.
    pub fn generate_sha256sums(&self, asset_hashes: &Vec<(String, [u8; 32])>) -> (r: CDResult<
        Vec<u8>,
    >)
        ensures
            r matches Ok(bytes) && bytes@ == encode_utf8(
                digest_lines(asset_views(self.assets.resolved@), asset_hashes@),
            ),
    {
        let ghost assets = asset_views(self.assets.resolved@);
        let mut sha256sums = String::new();
        let mut i: usize = 0;
        // Collect sha256sums from each asset in the archive (excludes symlinks).
        while i < self.assets.resolved.len()
            invariant
                assets == asset_views(self.assets.resolved@),
                i <= assets.len(),
                sha256sums@ == digest_lines(assets.take(i as int), asset_hashes@),
            decreases assets.len() - i,
        {
            let ghost before = sha256sums@;
            let target_path = self.assets.resolved[i].c.target_path.as_str();
            assert(assets[i as int].c.target_path == target_path@);
            if let Some(k) = find_digest(asset_hashes, target_path) {
                sha256sums.append(hex_text(asset_hashes[k].1.as_slice()).as_str());
                sha256sums.append("  ");
                sha256sums.append(target_path);
                sha256sums.push('\n');
            }
            i += 1;
            assert(assets.take(i as int).drop_last() =~= assets.take(i - 1));
            assert(sha256sums@ =~= before + digest_line(assets[i - 1], asset_hashes@));
        }
        assert(assets.take(i as int) =~= assets);
        Ok(sha256sums.as_str().as_bytes_vec())
    }
}

/// What is said of the project at the head of the copyright file.
pub open spec fn copyright_metadata(p: Package) -> Seq<char> {
    labelled(
        "Format: "@,
        "https://www.debian.org/doc/packaging-manuals/copyright-format/1.0/"@,
    )
    + labelled("Upstream-Name: "@, p.name@)
    + labelled_some("Source: "@, either(p.repository, p.homepage))
    + labelled("Copyright: "@, p.copyright@)
    + labelled_some("License: "@, p.license)
}

impl Package {
    pub fn append_copyright_metadata(&self, copyright: &mut Vec<u8>) -> (r: CDResult<()>)
        ensures
            r is Ok,
            final(copyright)@ == old(copyright)@ + encode_utf8(copyright_metadata(*self)),
    {
        let mut out = String::new();
        put_line(
            &mut out,
            "Format: ",
            "https://www.debian.org/doc/packaging-manuals/copyright-format/1.0/",
        );
        assert(out@ =~= labelled(
            "Format: "@,
            "https://www.debian.org/doc/packaging-manuals/copyright-format/1.0/"@,
        ));
        put_line(&mut out, "Upstream-Name: ", self.name.as_str());
        if self.repository.is_some() {
            put_some(&mut out, "Source: ", &self.repository);
        } else {
            put_some(&mut out, "Source: ", &self.homepage);
        }
        put_line(&mut out, "Copyright: ", self.copyright.as_str());
        put_some(&mut out, "License: ", &self.license);
        push_bytes(copyright, out.as_str());
        Ok(())
    }
}

/// The line begins with a field of a copyright file.
pub open spec fn is_copyright_field(line: Seq<char>) -> bool {
    ||| "License: "@.is_prefix_of(line)
    ||| "Source: "@.is_prefix_of(line)
    ||| "Upstream-Name: "@.is_prefix_of(line)
    ||| "Format: "@.is_prefix_of(line)
}

/// One of the first ten lines begins with a field of a copyright file.
pub open spec fn copyright_metadata_given(file: Seq<char>) -> bool {
    exists|i: int| 0 <= i < lines(file).len() && i < 10 && is_copyright_field(#[trigger] lines(file)[i])
}

/// Whether the text of a license file is headed by the fields of a copyright file.
pub fn has_copyright_metadata(file: &str) -> (r: bool)
    ensures
        r == copyright_metadata_given(file@),
{
    let list = split_lines(file);
    let mut i: usize = 0;
    while i < list.len() && i < 10
        invariant
            i <= list@.len(),
            i <= 10,
            texts(list@) == lines(file@),
            forall|k: int| 0 <= k < i ==> !is_copyright_field(#[trigger] lines(file@)[k]),
        decreases list@.len() - i,
    {
        let l = list[i].as_str();
        assert(lines(file@)[i as int] == l@);
        if starts_with(l, "License: ") || starts_with(l, "Source: ") || starts_with(
            l,
            "Upstream-Name: ",
        ) || starts_with(l, "Format: ") {
            return true;
        }
        i += 1;
    }
    assert(texts(list@).len() == list@.len());
    false
}

/// A line of a license file in the copyright file: a dot marks a line of one space.
pub open spec fn copyright_line(line: Seq<char>) -> Seq<char> {
    (if line == seq![' '] {
        seq![' ', '.']
    } else {
        line
    }) + seq!['\n']
}

/// The lines of a license file in the copyright file.
pub open spec fn copyright_lines(list: Seq<Seq<char>>) -> Seq<char>
    decreases list.len(),
{
    if list.len() == 0 {
        Seq::empty()
    } else {
        copyright_lines(list.drop_last()) + copyright_line(list.last())
    }
}

/// The lines from `n` on.
pub open spec fn lines_behind(list: Seq<Seq<char>>, n: int) -> Seq<Seq<char>> {
    if n <= list.len() {
        list.skip(n)
    } else {
        Seq::empty()
    }
}

/// The text of the copyright file: made from the text of the license file, where there is
/// one, and with the metadata in front unless that has them already.
pub open spec fn copyright_text(p: Package, license: Option<Seq<char>>) -> Seq<char> {
    match license {
        Some(file) => (if copyright_metadata_given(file) {
            Seq::empty()
        } else {
            copyright_metadata(p)
        }) + copyright_lines(lines_behind(lines(file), p.license_file_skip_lines as int)),
        None => copyright_metadata(p),
    }
}

/// The first line of a text.
proof fn lemma_first_line(line: Seq<char>, rest: Seq<char>)
    requires
        forall|k: int| 0 <= k < line.len() ==> line[k] != '\n',
    ensures
        lines(line + seq!['\n'] + rest) == seq![without_cr(line)] + lines(rest),
{
    let t = line + seq!['\n'] + rest;
    let n = line.len() as int;
    lemma_index_from_is(t, '\n', 0, n);
    assert(t.subrange(0, n) =~= line);
    assert(t.skip(n + 1) =~= rest);
}

/// A line holds no line feed.
pub proof fn lemma_lines_hold_no_feed(s: Seq<char>)
    ensures
        forall|i: int, k: int|
            0 <= i < lines(s).len() && 0 <= k < lines(s)[i].len() ==> #[trigger] lines(s)[i][k]
                != '\n',
    decreases s.len(),
{
    if s.len() > 0 {
        lemma_index_from(s, '\n', 0);
        let n = index_from(s, '\n', 0);
        if n < s.len() {
            let rest = lines(s.skip(n + 1));
            lemma_lines_hold_no_feed(s.skip(n + 1));
            assert forall|i: int, k: int|
                0 <= i < lines(s).len() && 0 <= k < lines(s)[i].len() implies #[trigger] lines(
                s,
            )[i][k] != '\n' by {
                if i > 0 {
                    assert(lines(s)[i] == rest[i - 1]);
                    assert(rest[i - 1][k] != '\n');
                } else {
                    assert(lines(s)[0][k] == s[k]);
                }
            }
        }
    }
}

/// The first line of a license file comes first.
proof fn lemma_copyright_lines_front(list: Seq<Seq<char>>)
    requires
        list.len() > 0,
    ensures
        copyright_lines(list) == copyright_line(list[0]) + copyright_lines(list.skip(1)),
    decreases list.len(),
{
    if list.len() == 1 {
        assert(list.skip(1) =~= Seq::empty());
        assert(list.drop_last() =~= Seq::empty());
        assert(copyright_lines(list) =~= copyright_line(list[0]) + copyright_lines(list.skip(1)));
    } else {
        lemma_copyright_lines_front(list.drop_last());
        assert(list.skip(1).drop_last() =~= list.drop_last().skip(1));
        assert(copyright_lines(list) =~= copyright_line(list[0]) + copyright_lines(list.skip(1)));
    }
}

/// A field of a license file is one in the copyright file.
proof fn lemma_copyright_field(line: Seq<char>)
    requires
        is_copyright_field(line),
    ensures
        line != seq![' '],
        is_copyright_field(without_cr(line)),
{
    reveal_strlit("License: ");
    reveal_strlit("Source: ");
    reveal_strlit("Upstream-Name: ");
    reveal_strlit("Format: ");
    let cut = without_cr(line);
    assert(line.len() >= 8);
    if cut != line {
        if "License: "@.is_prefix_of(line) {
            assert(line.subrange(0, 9)[8] == ' ');
            assert("License: "@ =~= cut.subrange(0, 9));
        } else if "Source: "@.is_prefix_of(line) {
            assert(line.subrange(0, 8)[7] == ' ');
            assert("Source: "@ =~= cut.subrange(0, 8));
        } else if "Upstream-Name: "@.is_prefix_of(line) {
            assert(line.subrange(0, 15)[14] == ' ');
            assert("Upstream-Name: "@ =~= cut.subrange(0, 15));
        } else {
            assert(line.subrange(0, 8)[7] == ' ');
            assert("Format: "@ =~= cut.subrange(0, 8));
        }
    }
}

/// The lines of a license file, written and read again.
proof fn lemma_copyright_lines_read(list: Seq<Seq<char>>, i: int)
    requires
        0 <= i < list.len(),
        is_copyright_field(list[i]),
        forall|j: int, k: int|
            0 <= j < list.len() && 0 <= k < list[j].len() ==> #[trigger] list[j][k] != '\n',
    ensures
        lines(copyright_lines(list)).len() > i,
        is_copyright_field(lines(copyright_lines(list))[i]),
    decreases i,
{
    let rest = list.skip(1);
    let body = if list[0] == seq![' '] {
        seq![' ', '.']
    } else {
        list[0]
    };
    lemma_copyright_lines_front(list);
    assert forall|k: int| 0 <= k < body.len() implies body[k] != '\n' by {
        if body == list[0] {
            assert(list[0][k] != '\n');
        }
    }
    lemma_first_line(body, copyright_lines(rest));
    assert(copyright_line(list[0]) == body + seq!['\n']);
    if i == 0 {
        lemma_copyright_field(list[0]);
    } else {
        assert forall|j: int, k: int| 0 <= j < rest.len() && 0 <= k < rest[j].len() implies
            #[trigger] rest[j][k] != '\n' by {
            assert(list[j + 1][k] != '\n');
        }
        assert(rest[i - 1] == list[i]);
        lemma_copyright_lines_read(rest, i - 1);
    }
}

/// The metadata that are written are recognised when they are read, whatever follows them.
pub proof fn law_metadata_are_recognised(p: Package, rest: Seq<char>)
    ensures
        copyright_metadata_given(copyright_metadata(p) + rest),
{
    let url = "https://www.debian.org/doc/packaging-manuals/copyright-format/1.0/"@;
    let first = "Format: "@ + url;
    let more = labelled("Upstream-Name: "@, p.name@) + labelled_some(
        "Source: "@,
        either(p.repository, p.homepage),
    ) + labelled("Copyright: "@, p.copyright@) + labelled_some("License: "@, p.license) + rest;
    let t = copyright_metadata(p) + rest;
    assert(t =~= first + seq!['\n'] + more);
    reveal_strlit("Format: ");
    reveal_strlit("https://www.debian.org/doc/packaging-manuals/copyright-format/1.0/");
    lemma_first_line(first, more);
    assert(first.subrange(0, 8) =~= "Format: "@);
    lemma_copyright_field(first);
    assert(lines(t)[0] == without_cr(first));
}

/// The copyright file has the metadata of the project, whatever the license file is like. That
/// may fail only where lines of a license file that brings its own metadata are skipped.
pub proof fn law_copyright_has_metadata(p: Package, license: Option<Seq<char>>)
    requires
        license matches Some(file) ==> !copyright_metadata_given(file)
            || p.license_file_skip_lines == 0,
    ensures
        copyright_metadata_given(copyright_text(p, license)),
{
    match license {
        None => {
            law_metadata_are_recognised(p, Seq::empty());
            assert(copyright_metadata(p) + Seq::empty() =~= copyright_metadata(p));
        },
        Some(file) => {
            let list = lines_behind(lines(file), p.license_file_skip_lines as int);
            if copyright_metadata_given(file) {
                let i = choose|i: int|
                    0 <= i < lines(file).len() && i < 10 && is_copyright_field(
                        #[trigger] lines(file)[i],
                    );
                assert(list =~= lines(file));
                lemma_lines_hold_no_feed(file);
                lemma_copyright_lines_read(lines(file), i);
                assert(copyright_text(p, license) =~= copyright_lines(list));
            } else {
                law_metadata_are_recognised(p, copyright_lines(list));
            }
        },
    }
}

impl Package {
    /// Makes the copyright file from the text of the license file, where there is one.
    pub fn copyright_file(&self, license_string: Option<&String>) -> (r: CDResult<Vec<u8>>)
        ensures
            r matches Ok(bytes) && bytes@ == encode_utf8(
                copyright_text(
                    *self,
                    match license_string {
                        Some(s) => Some(s@),
                        None => None,
                    },
                ),
            ),
    {
        let mut copyright: Vec<u8> = Vec::new();
        match license_string {
            Some(license_string) => {
                let ghost head = if copyright_metadata_given(license_string@) {
                    Seq::empty()
                } else {
                    copyright_metadata(*self)
                };
                if !has_copyright_metadata(license_string.as_str()) {
                    self.append_copyright_metadata(&mut copyright)?;
                    assert(copyright@ =~= encode_utf8(head));
                } else {
                    assert(copyright@ =~= encode_utf8(head));
                }
                let list = split_lines(license_string.as_str());
                // Skip the first `A` number of lines and then iterate each line after that.
                let ghost rest = lines_behind(
                    lines(license_string@),
                    self.license_file_skip_lines as int,
                );
                let mut out = String::new();
                let mut i: usize = self.license_file_skip_lines;
                assert(texts(list@).len() == list@.len());
                while i < list.len()
                    invariant
                        texts(list@) == lines(license_string@),
                        rest == lines_behind(
                            lines(license_string@),
                            self.license_file_skip_lines as int,
                        ),
                        self.license_file_skip_lines <= i,
                        i == self.license_file_skip_lines || i <= list@.len(),
                        out@ == copyright_lines(rest.take(i - self.license_file_skip_lines)),
                    decreases list@.len() - i,
                {
                    let line = list[i].as_str();
                    let ghost before = out@;
                    let ghost k = i - self.license_file_skip_lines;
                    assert(texts(list@)[i as int] == line@);
                    assert(rest[k] == line@);
                    proof {
                        reveal_strlit(" ");
                        reveal_strlit(" .\n");
                        assert(" "@ =~= seq![' ']);
                        assert(" .\n"@ =~= seq![' ', '.', '\n']);
                    }
                    // If the line is a space, add a dot, else write the line.
                    if same_text(line, " ") {
                        out.append(" .\n");
                    } else {
                        out.append(line);
                        out.push('\n');
                    }
                    i += 1;
                    assert(rest.take(k + 1).drop_last() =~= rest.take(k));
                    assert(out@ =~= before + copyright_line(line@));
                }
                assert(rest.take(i - self.license_file_skip_lines) =~= rest);
                push_bytes(&mut copyright, out.as_str());
                proof {
                    lemma_encode_concat(head, copyright_lines(rest));
                }
            },
            None => {
                self.append_copyright_metadata(&mut copyright)?;
                assert(copyright@ =~= encode_utf8(copyright_metadata(*self)));
            },
        }
        Ok(copyright)
    }
}

/// The asset is an executable or a dynamic library.
pub open spec fn is_binary(a: AssetView, dll_suffix: Seq<char>) -> bool {
    names_library(a.c.target_path, dll_suffix) || executable(a.c.chmod)
}

/// The asset is an executable or a dynamic library that the build makes.
pub open spec fn is_built_binary(a: AssetView, dll_suffix: Seq<char>) -> bool {
    a.c.is_built != IsBuilt::No && is_binary(a, dll_suffix)
}

/// The positions below `n` at which the assets are executables or dynamic libraries that the
/// build makes.
pub open spec fn built_positions(assets: Seq<AssetView>, dll_suffix: Seq<char>, n: nat) -> Seq<int>
    decreases n,
{
    if n == 0 {
        Seq::empty()
    } else {
        let front = built_positions(assets, dll_suffix, (n - 1) as nat);
        if is_built_binary(assets[n - 1], dll_suffix) {
            front.push(n - 1)
        } else {
            front
        }
    }
}

/// The sources of the executables and dynamic libraries.
pub open spec fn binary_sources(assets: Seq<Asset>, dll_suffix: Seq<char>) -> Seq<AssetSource> {
    assets.filter(|a: Asset| is_binary(a@, dll_suffix)).map_values(|a: Asset| a.source)
}

/// The paths at which the executables and dynamic libraries stand, without symlinks.
pub open spec fn binary_paths(assets: Seq<AssetView>, dll_suffix: Seq<char>) -> Seq<Seq<char>>
    decreases assets.len(),
{
    if assets.len() == 0 {
        Seq::empty()
    } else {
        let front = binary_paths(assets.drop_last(), dll_suffix);
        let a = assets.last();
        match a.source {
            SourceView::Path(p) => if is_binary(a, dll_suffix) {
                front.push(p)
            } else {
                front
            },
            _ => front,
        }
    }
}

impl Package {
    /// Executables AND dynamic libraries. May include symlinks.
    pub fn all_binaries(&self, platform: &Platform) -> (r: Vec<&AssetSource>)
        ensures
            r@.map_values(|s: &AssetSource| *s) == binary_sources(
                self.assets.resolved@,
                platform.dll_suffix@,
            ),
    {
        let ghost all = self.assets.resolved@;
        let ghost suffix = platform.dll_suffix@;
        let ghost wanted = |a: Asset| is_binary(a@, suffix);
        let mut r: Vec<&AssetSource> = Vec::new();
        let mut i: usize = 0;
        proof {
            reveal(Seq::filter);
            assert(r@.map_values(|s: &AssetSource| *s) =~= binary_sources(all.take(0), suffix));
        }
        while i < self.assets.resolved.len()
            invariant
                all == self.assets.resolved@,
                suffix == platform.dll_suffix@,
                i <= all.len(),
                r@.map_values(|s: &AssetSource| *s) == binary_sources(all.take(i as int), suffix),
            decreases all.len() - i,
        {
            let ghost before = r@.map_values(|s: &AssetSource| *s);
            let asset = &self.assets.resolved[i];
            proof {
                reveal(Seq::filter);
                assert(all.take(i + 1).drop_last() =~= all.take(i as int));
            }
            // Assumes files in build dir which have executable flag set are binaries
            if asset.c.is_dynamic_library(platform) || asset.c.is_executable() {
                r.push(&asset.source);
                assert(r@.map_values(|s: &AssetSource| *s) =~= before.push(asset.source));
                assert(binary_sources(all.take(i + 1), suffix) =~= before.push(asset.source));
            } else {
                assert(binary_sources(all.take(i + 1), suffix) =~= before);
            }
            i += 1;
        }
        assert(all.take(i as int) =~= all);
        r
    }

    /// The paths of the executables and dynamic libraries whose dependencies are to be found
    /// out. A symlink has none of its own.
    pub fn binaries_to_resolve(&self, platform: &Platform) -> (r: Vec<String>)
        ensures
            texts(r@) == binary_paths(asset_views(self.assets.resolved@), platform.dll_suffix@),
    {
        let ghost all = asset_views(self.assets.resolved@);
        let ghost suffix = platform.dll_suffix@;
        let bin = self.all_binaries(platform);
        let ghost sources = bin@.map_values(|s: &AssetSource| *s);
        let mut r: Vec<String> = Vec::new();
        let mut i: usize = 0;
        assert(texts(r@) =~= source_paths(sources.take(0)));
        while i < bin.len()
            invariant
                sources == bin@.map_values(|s: &AssetSource| *s),
                i <= bin@.len(),
                texts(r@) == source_paths(sources.take(i as int)),
            decreases bin@.len() - i,
        {
            let ghost before = texts(r@);
            let source = bin[i];
            assert(sources[i as int] == *source);
            assert(sources.take(i + 1).drop_last() =~= sources.take(i as int));
            if !source.archive_as_symlink_only() {
                if let Some(p) = source.path() {
                    r.push(p.clone());
                    assert(texts(r@) =~= before.push(p@));
                }
            }
            i += 1;
        }
        proof {
            assert(sources.take(i as int) =~= sources);
            lemma_source_paths(self.assets.resolved@, suffix);
        }
        r
    }

    /// The positions, among the assets, of the executables AND dynamic libraries, but only
    /// those in `target/release`
    pub fn built_binaries(&self, platform: &Platform) -> (r: Vec<usize>)
        ensures
            r@.map_values(|k: usize| k as int) == built_positions(
                asset_views(self.assets.resolved@),
                platform.dll_suffix@,
                self.assets.resolved@.len(),
            ),
    {
        let ghost all = asset_views(self.assets.resolved@);
        let mut r: Vec<usize> = Vec::new();
        let mut i: usize = 0;
        assert(r@.map_values(|k: usize| k as int) =~= Seq::empty());
        while i < self.assets.resolved.len()
            invariant
                all == asset_views(self.assets.resolved@),
                i <= all.len(),
                r@.map_values(|k: usize| k as int) == built_positions(
                    all,
                    platform.dll_suffix@,
                    i as nat,
                ),
            decreases all.len() - i,
        {
            let ghost before = r@.map_values(|k: usize| k as int);
            let asset = &self.assets.resolved[i];
            assert(all[i as int] == asset@);
            // Assumes files in build dir which have executable flag set are binaries
            if asset.c.is_built() && (asset.c.is_dynamic_library(platform)
                || asset.c.is_executable()) {
                r.push(i);
                assert(r@.map_values(|k: usize| k as int) =~= before.push(i as int));
            }
            i += 1;
        }
        r
    }
}

/// The paths of the sources that are files.
spec fn source_paths(list: Seq<AssetSource>) -> Seq<Seq<char>>
    decreases list.len(),
{
    if list.len() == 0 {
        Seq::empty()
    } else {
        match list.last() {
            AssetSource::Path(p) => source_paths(list.drop_last()).push(p@),
            _ => source_paths(list.drop_last()),
        }
    }
}

/// The paths of the files among the sources of the binaries are the paths of the binaries.
proof fn lemma_source_paths(assets: Seq<Asset>, dll_suffix: Seq<char>)
    ensures
        source_paths(binary_sources(assets, dll_suffix)) == binary_paths(
            asset_views(assets),
            dll_suffix,
        ),
    decreases assets.len(),
{
    reveal(Seq::filter);
    if assets.len() == 0 {
        assert(binary_sources(assets, dll_suffix) =~= Seq::empty());
    } else {
        let front = assets.drop_last();
        lemma_source_paths(front, dll_suffix);
        assert(asset_views(assets).drop_last() =~= asset_views(front));
        assert(asset_views(assets).last() == assets.last()@);
        if is_binary(assets.last()@, dll_suffix) {
            assert(binary_sources(assets, dll_suffix) =~= binary_sources(front, dll_suffix).push(
                assets.last().source,
            ));
            assert(binary_sources(assets, dll_suffix).drop_last() =~= binary_sources(
                front,
                dll_suffix,
            ));
        } else {
            assert(binary_sources(assets, dll_suffix) =~= binary_sources(front, dll_suffix));
        }
    }
}

/// The binaries that the build makes are among all binaries.
pub proof fn law_built_binaries(assets: Seq<AssetView>, dll_suffix: Seq<char>, n: nat)
    requires
        n <= assets.len(),
    ensures
        forall|k: int|
            0 <= k < n ==> (#[trigger] built_positions(assets, dll_suffix, n).contains(k)
                <==> is_built_binary(assets[k], dll_suffix)),
        forall|j: int|
            0 <= j < built_positions(assets, dll_suffix, n).len() ==> {
                let k = #[trigger] built_positions(assets, dll_suffix, n)[j];
                0 <= k < n && is_binary(assets[k], dll_suffix)
            },
    decreases n,
{
    if n > 0 {
        let all = built_positions(assets, dll_suffix, n);
        let front = built_positions(assets, dll_suffix, (n - 1) as nat);
        law_built_binaries(assets, dll_suffix, (n - 1) as nat);
        assert forall|k: int| 0 <= k < n implies (#[trigger] all.contains(k) <==> is_built_binary(
            assets[k],
            dll_suffix,
        )) by {
            if k < n - 1 {
                if front.contains(k) {
                    let j = choose|j: int| 0 <= j < front.len() && front[j] == k;
                    assert(all[j] == k);
                }
                if all.contains(k) {
                    let j = choose|j: int| 0 <= j < all.len() && all[j] == k;
                    assert(j < front.len());
                    assert(front[j] == k);
                }
            } else {
                if is_built_binary(assets[k], dll_suffix) {
                    assert(all[front.len() as int] == k);
                } else if all.contains(k) {
                    let j = choose|j: int| 0 <= j < all.len() && all[j] == k;
                    assert(front[j] == k);
                }
            }
        }
    }
}

} // verus!
