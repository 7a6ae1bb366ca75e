//! What a manifest says of the package to be made.

use vstd::prelude::*;
use vstd::string::*;
use vstd::utf8::{encode_utf8, is_ascii_chars, is_ascii_chars_encode_utf8};
use crate::error::{Attempt, CDResult, CargoDebError, ErrorView};
use crate::path::{extension, extension_of, is_absolute, join, path_join, rooted};
use crate::text::{
    index_from, lemma_index_from_is, lines, opt_text, pieces, same_text, texts, without_cr,
};

verus! {

/// A target of the build, as Cargo describes it.
#[derive(Debug, Clone, Default)]
pub struct CargoMetadataTarget {
    pub name: String,
    pub kind: Vec<String>,
    pub crate_types: Vec<String>,
    pub src_path: String,
}

/// A build target with its texts as sequences.
pub struct TargetView {
    pub name: Seq<char>,
    pub kind: Seq<Seq<char>>,
    pub crate_types: Seq<Seq<char>>,
    pub src_path: Seq<char>,
}

impl View for CargoMetadataTarget {
    type V = TargetView;

    open spec fn view(&self) -> TargetView {
        TargetView {
            name: self.name@,
            kind: texts(self.kind@),
            crate_types: texts(self.crate_types@),
            src_path: self.src_path@,
        }
    }
}

/// The views of a list of build targets.
pub open spec fn target_views(list: Seq<CargoMetadataTarget>) -> Seq<TargetView> {
    list.map_values(|t: CargoMetadataTarget| t@)
}

/// The `[package]` section of a manifest.
#[derive(Debug, Clone, Default)]
pub struct ManifestPackage {
    pub name: String,
    pub authors: Vec<String>,
    pub description: Option<String>,
    pub documentation: Option<String>,
    pub homepage: Option<String>,
    pub license: Option<String>,
    /// Whether a license file is named.
    pub has_license_file: bool,
    /// The path of the readme, relative to the manifest.
    pub readme: Option<String>,
    pub repository: Option<String>,
}

/// The `[package.metadata.deb]` section of a manifest.
#[derive(Debug, Clone, Default)]
pub struct CargoDeb {
    pub name: Option<String>,
    pub maintainer: Option<String>,
    pub copyright: Option<String>,
    pub changelog: Option<String>,
    pub depends: Option<String>,
    pub pre_depends: Option<String>,
    pub recommends: Option<String>,
    pub suggests: Option<String>,
    pub enhances: Option<String>,
    pub conflicts: Option<String>,
    pub breaks: Option<String>,
    pub replaces: Option<String>,
    pub provides: Option<String>,
    pub extended_description: Option<String>,
    pub extended_description_file: Option<String>,
    pub section: Option<String>,
    pub priority: Option<String>,
    pub revision: Option<String>,
    pub conf_files: Option<Vec<String>>,
    /// The path of the license file and the number of its lines to skip, as they are given.
    pub license_file: Option<Vec<String>>,
    /// Each asset as a list of source path, target path and mode.
    pub assets: Option<Vec<Vec<String>>>,
    pub triggers_file: Option<String>,
    pub maintainer_scripts: Option<String>,
    pub features: Option<Vec<String>>,
    pub default_features: Option<bool>,
    pub separate_debug_symbols: Option<bool>,
    pub compress_debug_symbols: Option<bool>,
    pub preserve_symlinks: Option<bool>,
    pub systemd_units: Option<SystemUnitsSingleOrMultiple>,
}

/// How systemd units are installed.
#[derive(Debug, Clone, Default)]
pub struct SystemdUnitsConfig {
    pub unit_scripts: Option<String>,
    pub unit_name: Option<String>,
    pub enable: Option<bool>,
    pub start: Option<bool>,
    pub restart_after_upgrade: Option<bool>,
    pub stop_on_upgrade: Option<bool>,
}

/// One way to install systemd units, or several.
#[derive(Debug, Clone)]
pub enum SystemUnitsSingleOrMultiple {
    Single(SystemdUnitsConfig),
    Multi(Vec<SystemdUnitsConfig>),
}

/// The options of `dh_installsystemd`.
#[derive(Debug, Clone, Copy, PartialEq, Eq, Structural)]
pub struct Options {
    pub no_enable: bool,
    pub no_start: bool,
    pub restart_after_upgrade: bool,
    pub no_stop_on_upgrade: bool,
}

/// A setting that is on unless it is switched off.
pub open spec fn on_by_default(setting: Option<bool>) -> bool {
    match setting {
        Some(b) => b,
        None => true,
    }
}

/// Match the official `dh_installsystemd` defaults and rename the confusing
/// `dh_installsystemd` option names to be consistently positive rather than
/// mostly, but not always, negative.
impl From<&SystemdUnitsConfig> for Options {
    fn from(config: &SystemdUnitsConfig) -> (r: Self) {
        Self {
            no_enable: !config.enable.unwrap_or(true),
            no_start: !config.start.unwrap_or(true),
            restart_after_upgrade: config.restart_after_upgrade.unwrap_or(true),
            no_stop_on_upgrade: !config.stop_on_upgrade.unwrap_or(true),
        }
    }
}

impl vstd::std_specs::convert::FromSpecImpl<&SystemdUnitsConfig> for Options {
    open spec fn obeys_from_spec() -> bool {
        true
    }

    open spec fn from_spec(config: &SystemdUnitsConfig) -> Options {
        Options {
            no_enable: !on_by_default(config.enable),
            no_start: !on_by_default(config.start),
            restart_after_upgrade: on_by_default(config.restart_after_upgrade),
            no_stop_on_upgrade: !on_by_default(config.stop_on_upgrade),
        }
    }
}

/// Something to tell the user.
#[derive(Debug, Clone)]
pub enum Notice {
    Warning(String),
    Info(String),
    /// A warning that goes to the log only.
    Log(String),
}

/// A notice with its text as a sequence.
pub enum NoticeView {
    Warning(Seq<char>),
    Info(Seq<char>),
    Log(Seq<char>),
}

impl View for Notice {
    type V = NoticeView;

    open spec fn view(&self) -> NoticeView {
        match self {
            Notice::Warning(m) => NoticeView::Warning(m@),
            Notice::Info(m) => NoticeView::Info(m@),
            Notice::Log(m) => NoticeView::Log(m@),
        }
    }
}

/// The views of a list of notices.
pub open spec fn notice_views(list: Seq<Notice>) -> Seq<NoticeView> {
    list.map_values(|n: Notice| n@)
}

/// The names under which a readme is looked for, in this order.
pub open spec fn readme_names() -> Seq<Seq<char>> {
    seq!["README.md"@, "README.markdown"@, "README.txt"@, "README"@]
}

/// The names under which a readme is looked for, in this order.
pub fn readme_candidates() -> (r: Vec<String>)
    ensures
        texts(r@) == readme_names(),
{
    let mut r: Vec<String> = Vec::new();
    r.push("README.md".to_owned());
    r.push("README.markdown".to_owned());
    r.push("README.txt".to_owned());
    r.push("README".to_owned());
    assert(texts(r@) =~= readme_names());
    r
}

/// The first of the given names, from `i` on, that is among those that exist.
pub open spec fn first_existing(names: Seq<Seq<char>>, existing: Seq<Seq<char>>, i: int) -> Option<
    Seq<char>,
>
    decreases names.len() - i,
{
    if i >= names.len() {
        None
    } else if existing.contains(names[i]) {
        Some(names[i])
    } else {
        first_existing(names, existing, i + 1)
    }
}

/// What there is to say about a missing description.
pub open spec fn description_notices(package: ManifestPackage) -> Seq<NoticeView> {
    if package.description is None {
        seq![NoticeView::Warning("description field is missing in Cargo.toml"@)]
    } else {
        Seq::empty()
    }
}

/// What there is to say about a missing license.
pub open spec fn license_notices(package: ManifestPackage) -> Seq<NoticeView> {
    if package.license is None && !package.has_license_file {
        seq![NoticeView::Warning("license field is missing in Cargo.toml"@)]
    } else {
        Seq::empty()
    }
}

/// The file holds markdown, by its extension.
pub open spec fn is_markdown(p: Seq<char>) -> bool {
    extension_of(p) matches Some(e) && (e == "md"@ || e == "markdown"@)
}

/// What there is to say about the readme, where `existing` are the names of the files
/// next to the manifest.
pub open spec fn readme_notices(
    package: ManifestPackage,
    deb: CargoDeb,
    existing: Seq<Seq<char>>,
) -> Seq<NoticeView> {
    match package.readme {
        Some(readme) => if deb.extended_description is None && deb.extended_description_file is None
            && is_markdown(readme@) {
            seq![
                NoticeView::Info(
                    "extended-description field missing. Using "@ + readme@
                        + ", but markdown may not render well."@,
                ),
            ]
        } else {
            Seq::empty()
        },
        None => match first_existing(readme_names(), existing, 0) {
            Some(name) => seq![
                NoticeView::Warning(
                    name + " file exists, but is not specified in `readme` Cargo.toml field"@,
                ),
            ],
            None => Seq::empty(),
        },
    }
}

/// All that there is to say about a manifest.
pub open spec fn check_notices(
    package: ManifestPackage,
    deb: CargoDeb,
    existing: Seq<Seq<char>>,
) -> Seq<NoticeView> {
    description_notices(package) + license_notices(package) + readme_notices(
        package,
        deb,
        existing,
    )
}

/// Adds a notice to a list.
pub fn push_notice(list: &mut Vec<Notice>, notice: Notice)
    ensures
        notice_views(final(list)@) == notice_views(old(list)@) + seq![notice@],
{
    let ghost before = notice_views(list@);
    list.push(notice);
    assert(notice_views(list@) =~= before + seq![notice@]);
}

/// Whether a list holds the text.
pub fn holds_text(list: &Vec<String>, text: &str) -> (r: bool)
    ensures
        r == texts(list@).contains(text@),
{
    let mut k: usize = 0;
    while k < list.len()
        invariant
            k <= list@.len(),
            forall|j: int| 0 <= j < k ==> (#[trigger] list@[j])@ != text@,
        decreases list@.len() - k,
    {
        if same_text(list[k].as_str(), text) {
            assert(texts(list@)[k as int] == text@);
            return true;
        }
        k += 1;
    }
    assert(!texts(list@).contains(text@)) by {
        if texts(list@).contains(text@) {
            let j = choose|j: int| 0 <= j < texts(list@).len() && texts(list@)[j] == text@;
            assert(list@[j]@ == text@);
        }
    }
    false
}

/// The first name of a readme that is among those that exist.
fn find_readme(existing: &Vec<String>) -> (r: Option<String>)
    ensures
        opt_text(r) == first_existing(readme_names(), texts(existing@), 0),
{
    let names = readme_candidates();
    let mut i: usize = 0;
    assert(texts(names@).len() == names@.len());
    while i < names.len()
        invariant
            texts(names@) == readme_names(),
            names@.len() == readme_names().len(),
            i <= names@.len(),
            first_existing(readme_names(), texts(existing@), i as int) == first_existing(
                readme_names(),
                texts(existing@),
                0,
            ),
        decreases names@.len() - i,
    {
        assert(texts(names@)[i as int] == names@[i as int]@);
        if holds_text(existing, names[i].as_str()) {
            return Some(names[i].clone());
        }
        i += 1;
    }
    None
}

/// Warns of what the manifest lacks, where `existing` are the names of the files next to
/// it.
pub fn manifest_check_config(
    package: &ManifestPackage,
    deb: &CargoDeb,
    existing: &Vec<String>,
    listener: &mut Vec<Notice>,
)
    ensures
        notice_views(final(listener)@) == notice_views(old(listener)@) + check_notices(
            *package,
            *deb,
            texts(existing@),
        ),
{
    let ghost start = notice_views(listener@);
    if package.description.is_none() {
        push_notice(
            listener,
            Notice::Warning("description field is missing in Cargo.toml".to_owned()),
        );
    }
    assert(notice_views(listener@) =~= start + description_notices(*package));
    if package.license.is_none() && !package.has_license_file {
        push_notice(
            listener,
            Notice::Warning("license field is missing in Cargo.toml".to_owned()),
        );
    }
    assert(notice_views(listener@) =~= start + description_notices(*package) + license_notices(
        *package,
    ));
    let ghost middle = notice_views(listener@);
    match &package.readme {
        Some(readme) => {
            let markdown = match extension(readme.as_str()) {
                Some(ext) => same_text(ext.as_str(), "md") || same_text(
                    ext.as_str(),
                    "markdown",
                ),
                None => false,
            };
            if deb.extended_description.is_none() && deb.extended_description_file.is_none()
                && markdown {
                let mut m = "extended-description field missing. Using ".to_owned();
                m.append(readme.as_str());
                m.append(", but markdown may not render well.");
                push_notice(listener, Notice::Info(m));
            }
        },
        None => {
            if let Some(name) = find_readme(existing) {
                let mut m = name;
                m.append(" file exists, but is not specified in `readme` Cargo.toml field");
                push_notice(listener, Notice::Warning(m));
            }
        },
    }
    assert(notice_views(listener@) =~= middle + readme_notices(*package, *deb, texts(existing@)));
    assert(notice_views(listener@) =~= start + check_notices(*package, *deb, texts(existing@)));
}

/// The file from which an extended description is to be read: none where the description
/// is given, else the file that is named for it, else the readme.
pub open spec fn description_file(
    deb: CargoDeb,
    readme: Option<String>,
    manifest_dir: Seq<char>,
) -> Option<Seq<char>> {
    if deb.extended_description is Some {
        None
    } else {
        match (deb.extended_description_file, readme) {
            (Some(f), _) => Some(f@),
            (None, Some(p)) => Some(path_join(manifest_dir, p@)),
            (None, None) => None,
        }
    }
}

/// Tells the file from which an extended description is to be read.
pub fn extended_description_file(
    deb: &CargoDeb,
    readme: &Option<String>,
    manifest_dir: &str,
) -> (r: Option<String>)
    ensures
        opt_text(r) == description_file(*deb, *readme, manifest_dir@),
{
    if deb.extended_description.is_some() {
        return None;
    }
    match &deb.extended_description_file {
        Some(f) => Some(f.clone()),
        None => match readme {
            Some(p) => Some(join(manifest_dir, p.as_str())),
            None => None,
        },
    }
}

/// The extended description: the one that is given, else what was read from a file.
pub open spec fn description_from(
    desc: Option<Seq<char>>,
    desc_file: Option<Seq<char>>,
    read: Option<Attempt<String>>,
) -> Result<Option<Seq<char>>, ErrorView> {
    match (desc, desc_file, read) {
        (Some(d), _, _) => Ok(Some(d)),
        (None, Some(_), Some(Ok(text))) => Ok(Some(text@)),
        (None, Some(path), Some(Err(e))) => Err(
            ErrorView::IoFile("unable to read extended description from file"@, e@, path),
        ),
        _ => Ok(None),
    }
}

/// Takes the extended description that is given, or else what came of reading the file for it.
pub fn manifest_extended_description(
    desc: Option<String>,
    desc_file: Option<String>,
    read: Option<Attempt<String>>,
) -> (r: CDResult<Option<String>>)
    requires
        desc is None && desc_file is Some ==> read is Some,
    ensures
        ({
            let from = description_from(opt_text(desc), opt_text(desc_file), read);
            match r {
                Ok(d) => from == Ok::<Option<Seq<char>>, ErrorView>(opt_text(d)),
                Err(e) => from == Err::<Option<Seq<char>>, ErrorView>(e@),
            }
        }),
{
    if desc.is_some() {
        return Ok(desc);
    }
    match (desc_file, read) {
        (Some(_), Some(Ok(text))) => Ok(Some(text)),
        (Some(path), Some(Err(e))) => Err(
            CargoDebError::IoFile("unable to read extended description from file", e, path),
        ),
        _ => Ok(None),
    }
}

/// The revision that goes into the version: the one asked for, else that of the manifest.
pub fn version_revision(deb_revision: Option<String>, deb: &CargoDeb) -> (r: Option<String>)
    ensures
        r == (if deb_revision is Some {
            deb_revision
        } else {
            deb.revision
        }),
{
    if deb_revision.is_some() {
        return deb_revision;
    }
    match &deb.revision {
        Some(revision) => Some(revision.clone()),
        None => None,
    }
}

/// The place of the variant of this name in a list.
pub open spec fn variant_at(variants: Seq<(String, CargoDeb)>, name: Seq<char>, i: int) -> bool {
    &&& 0 <= i < variants.len()
    &&& variants[i].0@ == name
    &&& forall|j: int| 0 <= j < i ==> (#[trigger] variants[j]).0@ != name
}

/// Takes the variant of the given name out of the variants of a manifest.
pub fn take_variant(variants: Option<Vec<(String, CargoDeb)>>, variant: &str) -> (r: CDResult<
    CargoDeb,
>)
    ensures
        match r {
            Ok(deb) => variants matches Some(list) && exists|i: int|
                #[trigger] variant_at(list@, variant@, i) && deb == list@[i].1,
            Err(e) => {
                &&& e@ == ErrorView::VariantNotFound(variant@)
                &&& variants matches Some(list) ==> forall|i: int|
                    0 <= i < list@.len() ==> (#[trigger] list@[i]).0@ != variant@
            },
        },
{
    let mut list = match variants {
        Some(list) => list,
        None => return Err(CargoDebError::VariantNotFound(variant.to_owned())),
    };
    let ghost all = list@;
    let mut i: usize = 0;
    while i < list.len()
        invariant
            list@ == all,
            variants matches Some(given) && given@ == all,
            i <= list@.len(),
            forall|j: int| 0 <= j < i ==> (#[trigger] all[j]).0@ != variant@,
        decreases list@.len() - i,
    {
        if same_text(list[i].0.as_str(), variant) {
            assert(variant_at(all, variant@, i as int));
            let (_, deb) = list.swap_remove(i);
            return Ok(deb);
        }
        i += 1;
    }
    Err(CargoDebError::VariantNotFound(variant.to_owned()))
}

#[derive(Debug, Copy, Clone, PartialEq, Eq, Structural)]
pub enum DebugSymbols {
    Keep,
    Strip,
    /// Should the debug symbols be moved to a separate file included in the package? (implies `strip:true`)
    Separate {
        /// Should the debug symbols be compressed
        compress: bool,
    },
}

/// The setting asked for, else that of the manifest, else off.
pub open spec fn setting(asked: Option<bool>, configured: Option<bool>) -> bool {
    match (asked, configured) {
        (Some(b), _) => b,
        (None, Some(b)) => b,
        (None, None) => false,
    }
}

/// What is done with debug symbols. They are compressed only where they are separate, and
/// kept only where there are any.
pub open spec fn symbols(separate: bool, compress: bool, debug_enabled: bool) -> DebugSymbols {
    if separate {
        DebugSymbols::Separate { compress }
    } else if debug_enabled {
        DebugSymbols::Keep
    } else {
        DebugSymbols::Strip
    }
}

/// What there is to say about settings for debug symbols that have no effect.
pub open spec fn symbol_notices(
    separate: bool,
    compress: bool,
    debug_enabled: bool,
) -> Seq<NoticeView> {
    if separate && !debug_enabled {
        seq![NoticeView::Log("separate-debug-symbols implies strip"@)]
    } else if !separate && debug_enabled && compress {
        seq![NoticeView::Log("separate-debug-symbols required to compress"@)]
    } else {
        Seq::empty()
    }
}

/// Decides what is done with debug symbols.
pub fn choose_debug_symbols(
    separate_debug_symbols: Option<bool>,
    compress_debug_symbols: Option<bool>,
    deb: &CargoDeb,
    debug_enabled: bool,
    listener: &mut Vec<Notice>,
) -> (r: DebugSymbols)
    ensures
        r == symbols(
            setting(separate_debug_symbols, deb.separate_debug_symbols),
            setting(compress_debug_symbols, deb.compress_debug_symbols),
            debug_enabled,
        ),
        notice_views(final(listener)@) == notice_views(old(listener)@) + symbol_notices(
            setting(separate_debug_symbols, deb.separate_debug_symbols),
            setting(compress_debug_symbols, deb.compress_debug_symbols),
            debug_enabled,
        ),
{
    let ghost said = notice_views(listener@);
    assert(said + Seq::empty() =~= said);
    let separate = match separate_debug_symbols {
        Some(b) => b,
        None => deb.separate_debug_symbols.unwrap_or(false),
    };
    let compress = match compress_debug_symbols {
        Some(b) => b,
        None => deb.compress_debug_symbols.unwrap_or(false),
    };
    if separate {
        if !debug_enabled {
            push_notice(
                listener,
                Notice::Log("separate-debug-symbols implies strip".to_owned()),
            );
        }
        DebugSymbols::Separate { compress }
    } else if debug_enabled {
        if compress {
            push_notice(
                listener,
                Notice::Log("separate-debug-symbols required to compress".to_owned()),
            );
        }
        DebugSymbols::Keep
    } else {
        DebugSymbols::Strip
    }
}

/// How a byte of a crate name is written in the name of a package.
pub open spec fn package_name_char(b: u8) -> char {
    if b == 95 {
        '-'
    } else if 65 <= b <= 90 {
        (b + 32) as char
    } else {
        b as char
    }
}

/// The name of the package for a crate: in lower case, with dashes for underscores.
pub open spec fn package_name(crate_name: Seq<char>) -> Seq<char> {
    encode_utf8(crate_name).map_values(|b: u8| package_name_char(b))
}

/// Debian doesn't like `_` in names
pub fn debian_package_name(crate_name: &str) -> (r: String)
    ensures
        r@ == package_name(crate_name@),
{
    // crate names are ASCII only
    let bytes = crate_name.as_bytes();
    let mut r = String::new();
    let mut i: usize = 0;
    while i < bytes.len()
        invariant
            i <= bytes@.len(),
            bytes@ == encode_utf8(crate_name@),
            r@ == package_name(crate_name@).take(i as int),
        decreases bytes@.len() - i,
    {
        let b: u8 = bytes[i];
        let ghost before = r@;
        r.push(
            if b == 95 {
                '-'
            } else if 65 <= b && b <= 90 {
                (b + 32) as char
            } else {
                b as char
            },
        );
        i += 1;
        assert(package_name(crate_name@).take(i as int) =~= before.push(package_name_char(b)));
    }
    assert(package_name(crate_name@).take(i as int) =~= package_name(crate_name@));
    r
}

/// A package name holds neither an underscore nor an upper-case letter, and to make a
/// package name of it again changes nothing.
pub proof fn law_package_name(crate_name: Seq<char>)
    ensures
        forall|i: int|
            0 <= i < package_name(crate_name).len() ==> {
                let c = #[trigger] package_name(crate_name)[i];
                c != '_' && !('A' <= c <= 'Z')
            },
        is_ascii_chars(crate_name) ==> package_name(package_name(crate_name)) == package_name(
            crate_name,
        ),
{
    let once = package_name(crate_name);
    if is_ascii_chars(crate_name) {
        is_ascii_chars_encode_utf8(crate_name);
        assert forall|i: int| 0 <= i < once.len() implies 0 <= (#[trigger] once[i]) as u32 <= 127
            by {
            assert(encode_utf8(crate_name)[i] == crate_name[i] as u8);
        }
        assert(is_ascii_chars(once));
        is_ascii_chars_encode_utf8(once);
        assert(package_name(once) =~= once);
    }
}

/// A path with a slash in front, which is added where it is missing.
pub open spec fn with_leading_slash(p: Seq<char>) -> Seq<char> {
    if rooted(p) {
        p
    } else {
        seq!['/'] + p
    }
}

/// The list of configuration files: a line for each, with a leading slash.
pub open spec fn conffiles(files: Seq<Seq<char>>) -> Seq<char>
    decreases files.len(),
{
    if files.len() == 0 {
        Seq::empty()
    } else {
        conffiles(files.drop_last()) + with_leading_slash(files.last()) + seq!['\n']
    }
}

/// Format conffiles section, ensuring each path has a leading slash
///
/// Starting with [dpkg 1.20.1](https://github.com/guillemj/dpkg/blob/68ab722604217d3ab836276acfc0ae1260b28f5f/debian/changelog#L393),
/// which is what Ubuntu 21.04 uses, relative conf-files are no longer
/// accepted (the deb-conffiles man page states that "they should be listed as
/// absolute pathnames"). So we prepend a leading slash to the given strings
/// as needed
pub fn format_conffiles(files: &Vec<String>) -> (r: String)
    ensures
        r@ == conffiles(texts(files@)),
{
    let mut acc = String::new();
    let mut i: usize = 0;
    while i < files.len()
        invariant
            i <= files@.len(),
            acc@ == conffiles(texts(files@).take(i as int)),
        decreases files@.len() - i,
    {
        let ghost before = acc@;
        let pth = files[i].as_str();
        if !is_absolute(pth) {
            acc.push('/');
        }
        acc.append(pth);
        acc.push('\n');
        i += 1;
        assert(texts(files@).take(i as int).drop_last() =~= texts(files@).take(i - 1));
        assert(acc@ =~= before + with_leading_slash(pth@) + seq!['\n']);
    }
    assert(texts(files@).take(i as int) =~= texts(files@));
    acc
}

/// The list of two groups of configuration files is the list of the one behind that of the
/// other.
pub proof fn law_conffiles_concat(a: Seq<Seq<char>>, b: Seq<Seq<char>>)
    ensures
        conffiles(a + b) == conffiles(a) + conffiles(b),
    decreases b.len(),
{
    if b.len() == 0 {
        assert(a + b =~= a);
        assert(conffiles(a) + conffiles(b) =~= conffiles(a));
    } else {
        assert((a + b).drop_last() =~= a + b.drop_last());
        law_conffiles_concat(a, b.drop_last());
        assert(conffiles(a + b) =~= conffiles(a) + conffiles(b));
    }
}

/// What stands between the line feeds of the list are the paths, each with a leading slash, and
/// nothing behind the last of them. So the lines of the list are the paths, too, but for a
/// carriage return at the end of a path, which a reader of lines drops. A path does not hold a
/// line feed.
pub proof fn law_conffiles_lines(files: Seq<Seq<char>>)
    requires
        forall|i: int, j: int|
            0 <= i < files.len() && 0 <= j < files[i].len() ==> #[trigger] files[i][j] != '\n',
    ensures
        pieces(conffiles(files), '\n') == files.map_values(
            |f: Seq<char>| with_leading_slash(f),
        ).push(Seq::empty()),
        lines(conffiles(files)) == files.map_values(
            |f: Seq<char>| without_cr(with_leading_slash(f)),
        ),
        forall|i: int|
            0 <= i < files.len() ==> rooted(#[trigger] lines(conffiles(files))[i]),
    decreases files.len(),
{
    let slashed = files.map_values(|f: Seq<char>| with_leading_slash(f));
    let cut = files.map_values(|f: Seq<char>| without_cr(with_leading_slash(f)));
    let all = conffiles(files);
    if files.len() == 0 {
        assert(lines(all) =~= cut);
        assert(index_from(all, '\n', 0) == 0);
        assert(pieces(all, '\n') =~= slashed.push(Seq::empty()));
    } else {
        let rest = files.skip(1);
        let first = with_leading_slash(files[0]);
        assert(files =~= seq![files[0]] + rest);
        law_conffiles_concat(seq![files[0]], rest);
        assert(seq![files[0]].drop_last() =~= Seq::empty());
        assert(conffiles(Seq::<Seq<char>>::empty()) =~= Seq::empty());
        assert(conffiles(seq![files[0]]) =~= first + seq!['\n']);
        assert(all =~= first + seq!['\n'] + conffiles(rest));
        assert forall|k: int| 0 <= k < first.len() implies all[k] != '\n' by {
            assert(all[k] == first[k]);
            if !rooted(files[0]) && k > 0 {
                assert(first[k] == files[0][k - 1]);
            }
        }
        lemma_index_from_is(all, '\n', 0, first.len() as int);
        assert(all.subrange(0, first.len() as int) =~= first);
        assert(all.skip(first.len() as int + 1) =~= conffiles(rest));
        assert forall|i: int, j: int|
            0 <= i < rest.len() && 0 <= j < rest[i].len() implies #[trigger] rest[i][j] != '\n' by {
            assert(rest[i] == files[i + 1]);
            assert(files[i + 1][j] != '\n');
        }
        law_conffiles_lines(rest);
        assert(pieces(all, '\n') =~= seq![first] + pieces(conffiles(rest), '\n'));
        assert(slashed.push(Seq::empty()) =~= seq![first] + rest.map_values(
            |f: Seq<char>| with_leading_slash(f),
        ).push(Seq::empty()));
        assert(lines(all) =~= seq![without_cr(first)] + lines(conffiles(rest)));
        assert(cut =~= seq![without_cr(first)] + rest.map_values(
            |f: Seq<char>| without_cr(with_leading_slash(f)),
        ));
    }
    assert forall|i: int| 0 <= i < files.len() implies rooted(#[trigger] lines(all)[i]) by {
        assert(lines(all)[i] == without_cr(with_leading_slash(files[i])));
    }
}

} // verus!
