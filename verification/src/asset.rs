//! The files of a package: where each comes from and where it is installed.

use vstd::prelude::*;
use vstd::string::*;
use crate::error::{fails_with, Attempt, CDResult, CargoDebError, ErrorView};
use crate::path::{
    file_name, is_absolute, join, lemma_name_of, lemma_without_root, name_of, path_join, rooted,
    strip_root, without_root,
};
use crate::text::{ends_with, ends_with_char, opt_text};

verus! {

/// How the files of the build machine are named: what stands before and after the name
/// of a dynamic library, and after the name of an executable.
#[derive(Debug, Clone)]
pub struct Platform {
    pub dll_prefix: String,
    pub dll_suffix: String,
    pub exe_suffix: String,
}

/// What the file system tells of a path.
#[derive(Debug, Clone, Copy)]
pub struct DiskStatus {
    /// The path leads to something. Symlinks are followed.
    pub exists: bool,
    /// The path itself is a symlink.
    pub is_symlink: bool,
}

#[derive(Debug, Clone)]
pub enum AssetSource {
    /// Copy file from the path (and strip binary if needed).
    Path(String),
    /// A symlink existing in the file system
    Symlink(String),
    /// Write data to destination as-is.
    Data(Vec<u8>),
}

/// An asset source with its contents as sequences.
pub enum SourceView {
    Path(Seq<char>),
    Symlink(Seq<char>),
    Data(Seq<u8>),
}

impl View for AssetSource {
    type V = SourceView;

    open spec fn view(&self) -> SourceView {
        match self {
            AssetSource::Path(p) => SourceView::Path(p@),
            AssetSource::Symlink(p) => SourceView::Symlink(p@),
            AssetSource::Data(d) => SourceView::Data(d@),
        }
    }
}

impl SourceView {
    /// The path that the source has in the file system.
    pub open spec fn path(self) -> Option<Seq<char>> {
        match self {
            SourceView::Path(p) => Some(p),
            SourceView::Symlink(p) => Some(p),
            SourceView::Data(_) => None,
        }
    }

    /// The file name of that path.
    pub open spec fn name(self) -> Option<Seq<char>> {
        match self.path() {
            Some(p) => name_of(p),
            None => None,
        }
    }
}

/// The source for a path: a symlink where the path is one that is to be preserved or leads
/// nowhere, else a file.
pub open spec fn source_at(
    path: Seq<char>,
    preserve_existing_symlink: bool,
    disk: DiskStatus,
) -> SourceView {
    if disk.is_symlink && (preserve_existing_symlink || !disk.exists) {
        SourceView::Symlink(path)
    } else {
        SourceView::Path(path)
    }
}

/// Where the bytes of an asset are.
#[derive(Debug)]
pub enum AssetData<'a> {
    /// In the file at this path.
    File(&'a String),
    /// Here.
    Inline(&'a Vec<u8>),
}

impl AssetSource {
    /// Symlink must exist on disk to be preserved
    #[must_use]
    pub fn from_path(path: String, preserve_existing_symlink: bool, disk: DiskStatus) -> (r: Self)
        ensures
            r@ == source_at(path@, preserve_existing_symlink, disk),
    {
        // a path that leads nowhere may be a symlink to a bogus path
        if (preserve_existing_symlink || !disk.exists) && disk.is_symlink {
            return Self::Symlink(path);
        }
        Self::Path(path)
    }

    #[must_use]
    pub fn path(&self) -> (r: Option<&String>)
        ensures
            (match r {
                Some(p) => Some(p@),
                None => None,
            }) == self@.path(),
    {
        match self {
            AssetSource::Symlink(p) => Some(p),
            AssetSource::Path(p) => Some(p),
            AssetSource::Data(_) => None,
        }
    }

    #[must_use]
    pub fn into_path(self) -> (r: Option<String>)
        ensures
            opt_text(r) == self@.path(),
    {
        match self {
            AssetSource::Symlink(p) => Some(p),
            AssetSource::Path(p) => Some(p),
            AssetSource::Data(_) => None,
        }
    }

    #[must_use]
    pub fn archive_as_symlink_only(&self) -> (r: bool)
        ensures
            r == (self@ is Symlink),
    {
        match self {
            AssetSource::Symlink(_) => true,
            _ => false,
        }
    }

    /// The size of the asset, where `on_disk` is the size of the file at its path, if that
    /// could be found out.
    #[must_use]
    pub fn file_size(&self, on_disk: Option<u64>) -> (r: Option<u64>)
        ensures
            r == size_of_source(self@, on_disk),
    {
        match self {
            // may not be accurate if the executable is not stripped yet
            AssetSource::Path(_) => on_disk,
            AssetSource::Data(d) => Some(d.len() as u64),
            AssetSource::Symlink(_) => None,
        }
    }

    /// Where the bytes of the asset are; a symlink has none.
    pub fn data(&self) -> (r: CDResult<AssetData<'_>>)
        ensures
            match *self {
                AssetSource::Path(p) => r matches Ok(AssetData::File(f)) && *f == p,
                AssetSource::Data(d) => r matches Ok(AssetData::Inline(b)) && *b == d,
                AssetSource::Symlink(_) => fails_with(
                    r,
                    ErrorView::Str("Symlink unexpectedly used to read file data"@),
                ),
            },
    {
        match self {
            AssetSource::Path(p) => Ok(AssetData::File(p)),
            AssetSource::Data(d) => Ok(AssetData::Inline(d)),
            AssetSource::Symlink(_) => Err(
                CargoDebError::Str("Symlink unexpectedly used to read file data"),
            ),
        }
    }
}

impl<'a> AssetData<'a> {
    /// The bytes of the asset, where `read` is what came of reading the file that they are in.
    pub fn bytes(self, read: Option<Attempt<Vec<u8>>>) -> (r: CDResult<Vec<u8>>)
        requires
            read is Some <==> self is File,
        ensures
            match self {
                AssetData::File(p) => match read->0 {
                    Ok(data) => r matches Ok(b) && b@ == data@,
                    Err(e) => fails_with(
                        r,
                        ErrorView::IoFile("unable to read asset to add to archive"@, e@, p@),
                    ),
                },
                AssetData::Inline(d) => r matches Ok(b) && b@ == d@,
            },
    {
        match (self, read) {
            (AssetData::File(_), Some(Ok(data))) => Ok(data),
            (AssetData::File(p), Some(Err(e))) => Err(
                CargoDebError::IoFile("unable to read asset to add to archive", e, p.clone()),
            ),
            (AssetData::File(_), None) => Ok(Vec::new()),
            (AssetData::Inline(d), _) => {
                let data = d.clone();
                assert(data@ =~= d@);
                Ok(data)
            },
        }
    }
}

/// The size of a source, given the size of the file at its path.
pub open spec fn size_of_source(s: SourceView, on_disk: Option<u64>) -> Option<u64> {
    match s {
        SourceView::Path(_) => on_disk,
        SourceView::Data(d) => Some(d.len() as u64),
        SourceView::Symlink(_) => None,
    }
}

#[derive(Debug, Copy, Clone, PartialEq, Eq, Structural)]
pub enum IsBuilt {
    No,
    SamePackage,
    /// needs --workspace to build
    Workspace,
}

#[derive(Debug, Clone)]
pub struct AssetCommon {
    pub target_path: String,
    pub chmod: u32,
    pub is_built: IsBuilt,
    pub is_example: bool,
}

/// What assets have in common, with the path as a sequence.
pub struct CommonView {
    pub target_path: Seq<char>,
    pub chmod: u32,
    pub is_built: IsBuilt,
    pub is_example: bool,
}

impl View for AssetCommon {
    type V = CommonView;

    open spec fn view(&self) -> CommonView {
        CommonView {
            target_path: self.target_path@,
            chmod: self.chmod,
            is_built: self.is_built,
            is_example: self.is_example,
        }
    }
}

#[derive(Debug, Clone)]
pub struct UnresolvedAsset {
    pub source_path: String,
    pub c: AssetCommon,
}

/// An unresolved asset with its paths as sequences.
pub struct UnresolvedView {
    pub source_path: Seq<char>,
    pub c: CommonView,
}

impl View for UnresolvedAsset {
    type V = UnresolvedView;

    open spec fn view(&self) -> UnresolvedView {
        UnresolvedView { source_path: self.source_path@, c: self.c@ }
    }
}

#[derive(Debug, Clone)]
pub struct ProcessedFrom {
    pub original_path: Option<String>,
    pub action: &'static str,
}

/// How an asset came to be, with its texts as sequences.
pub struct ProcessedView {
    pub original_path: Option<Seq<char>>,
    pub action: Seq<char>,
}

impl View for ProcessedFrom {
    type V = ProcessedView;

    open spec fn view(&self) -> ProcessedView {
        ProcessedView { original_path: opt_text(self.original_path), action: self.action@ }
    }
}

#[derive(Debug, Clone)]
pub struct Asset {
    pub source: AssetSource,
    /// For prettier path display not "/tmp/blah.tmp"
    pub processed_from: Option<ProcessedFrom>,
    pub c: AssetCommon,
}

/// An asset with its contents as sequences.
pub struct AssetView {
    pub source: SourceView,
    pub processed_from: Option<ProcessedView>,
    pub c: CommonView,
}

impl View for Asset {
    type V = AssetView;

    open spec fn view(&self) -> AssetView {
        AssetView {
            source: self.source@,
            processed_from: match self.processed_from {
                Some(p) => Some(p@),
                None => None,
            },
            c: self.c@,
        }
    }
}

/// The views of a list of assets.
pub open spec fn asset_views(list: Seq<Asset>) -> Seq<AssetView> {
    list.map_values(|a: Asset| a@)
}

/// The views of a list of unresolved assets.
pub open spec fn unresolved_views(list: Seq<UnresolvedAsset>) -> Seq<UnresolvedView> {
    list.map_values(|a: UnresolvedAsset| a@)
}

/// The path names a directory: it ends in a slash.
pub open spec fn names_directory(p: Seq<char>) -> bool {
    p.len() > 0 && p.last() == '/'
}

/// An asset can be made of the source and the target: where the target is a directory,
/// the source has a file name to put into it.
pub open spec fn can_place(source: SourceView, target: Seq<char>) -> bool {
    names_directory(target) ==> source.name() is Some
}

/// The path, seen from the root, at which a source is installed for a given target. In a
/// directory it keeps its file name.
pub open spec fn placed(source: SourceView, target: Seq<char>) -> Seq<char> {
    without_root(
        if names_directory(target) {
            path_join(target, source.name()->0)
        } else {
            target
        },
    )
}

/// The asset that is made of the given parts.
pub open spec fn new_asset(
    source: SourceView,
    target: Seq<char>,
    chmod: u32,
    is_built: IsBuilt,
    is_example: bool,
) -> AssetView {
    AssetView {
        source,
        processed_from: None,
        c: CommonView { target_path: placed(source, target), chmod, is_built, is_example },
    }
}

/// An asset is installed relative to the root, and under the name of a file: its target
/// path neither begins nor ends in a slash, whatever target it was given.
pub proof fn law_placed_is_relative(source: SourceView, target: Seq<char>)
    requires
        can_place(source, target),
    ensures
        !rooted(placed(source, target)),
        !names_directory(placed(source, target)),
{
    let t = if names_directory(target) {
        path_join(target, source.name()->0)
    } else {
        target
    };
    lemma_without_root(t);
    if names_directory(target) {
        lemma_name_of(source.path()->0);
    }
}

impl Asset {
    #[must_use]
    pub fn new(
        source: AssetSource,
        target_path: String,
        chmod: u32,
        is_built: IsBuilt,
        is_example: bool,
    ) -> (r: Self)
        requires
            can_place(source@, target_path@),
        ensures
            r@ == new_asset(source@, target_path@, chmod, is_built, is_example),
            r.source == source,
    {
        let mut target_path = target_path;
        if ends_with_char(target_path.as_str(), '/') {
            if let Some(p) = source.path() {
                if let Some(file_name) = file_name(p.as_str()) {
                    target_path = join(target_path.as_str(), file_name.as_str());
                }
            }
        }
        if is_absolute(target_path.as_str()) {
            target_path = strip_root(target_path.as_str());
        }
        Self {
            source,
            processed_from: None,
            c: AssetCommon { target_path, chmod, is_built, is_example },
        }
    }

    /// Notes what was done to make the asset. That is noted once.
    #[must_use]
    pub fn processed(self, action: &'static str, original_path: Option<String>) -> (r: Self)
        requires
            self.processed_from is None,
        ensures
            r@ == (AssetView {
                processed_from: Some(
                    ProcessedView { original_path: opt_text(original_path), action: action@ },
                ),
                ..self@
            }),
            r.source == self.source,
            r.c == self.c,
    {
        let mut asset = self;
        asset.processed_from = Some(ProcessedFrom { original_path, action });
        asset
    }
}

/// The file may be run by someone.
pub open spec fn executable(chmod: u32) -> bool {
    chmod & 0o111 != 0
}

/// The file name ends as that of a dynamic library does.
pub open spec fn names_library(p: Seq<char>, dll_suffix: Seq<char>) -> bool {
    name_of(p) matches Some(name) && dll_suffix.is_suffix_of(name)
}

/// The path of the file with the debug symbols of the file at `p`.
pub open spec fn debug_name(p: Seq<char>) -> Seq<char> {
    p + ".debug"@
}

/// The path at which the debug symbols of an asset are installed.
pub open spec fn debug_target(target: Seq<char>) -> Seq<char> {
    debug_name(path_join("/usr/lib/debug"@, without_root(target)))
}

/// The debug symbols of an asset are installed below `/usr/lib/debug/`, under the path of
/// the asset with `.debug` behind it.
pub proof fn law_debug_target(target: Seq<char>)
    ensures
        debug_target(target) == "/usr/lib/debug/"@ + without_root(target) + ".debug"@,
{
    reveal_strlit("/usr/lib/debug");
    reveal_strlit("/usr/lib/debug/");
    lemma_without_root(target);
    assert("/usr/lib/debug"@.push('/') =~= "/usr/lib/debug/"@);
}

impl AssetCommon {
    pub fn is_executable(&self) -> (r: bool)
        ensures
            r == executable(self.chmod),
    {
        0 != self.chmod & 0o111
    }

    pub fn is_dynamic_library(&self, platform: &Platform) -> (r: bool)
        ensures
            r == names_library(self.target_path@, platform.dll_suffix@),
    {
        is_dynamic_library_filename(self.target_path.as_str(), platform)
    }

    pub fn is_built(&self) -> (r: bool)
        ensures
            r == (self.is_built != IsBuilt::No),
    {
        self.is_built != IsBuilt::No
    }

    /// Returns the target path for the debug symbol file, which will be
    /// /usr/lib/debug/<path-to-executable>.debug
    #[must_use]
    pub fn default_debug_target_path(&self) -> (r: String)
        ensures
            r@ == debug_target(self.target_path@),
    {
        // Turn an absolute path into one relative to "/"
        let relative = strip_root(self.target_path.as_str());
        // Prepend the debug location
        let debug_path = join("/usr/lib/debug", relative.as_str());
        // Add `.debug` to the end of the filename
        debug_filename(debug_path.as_str())
    }
}

/// Adds `.debug` to the end of a path to a filename
pub fn debug_filename(path: &str) -> (r: String)
    ensures
        r@ == debug_name(path@),
{
    let mut r = path.to_owned();
    r.append(".debug");
    r
}

pub fn is_dynamic_library_filename(path: &str, platform: &Platform) -> (r: bool)
    ensures
        r == names_library(path@, platform.dll_suffix@),
{
    match file_name(path) {
        Some(f) => ends_with(f.as_str(), platform.dll_suffix.as_str()),
        None => false,
    }
}

/// The assets of a package, and those whose files are still to be found.
#[derive(Debug, Clone)]
pub struct Assets {
    pub unresolved: Vec<UnresolvedAsset>,
    pub resolved: Vec<Asset>,
}

impl Assets {
    pub fn new() -> (r: Assets)
        ensures
            r.unresolved@ == Seq::<UnresolvedAsset>::empty(),
            r.resolved@ == Seq::<Asset>::empty(),
    {
        Assets { unresolved: Vec::new(), resolved: Vec::new() }
    }

    pub fn with_resolved_assets(assets: Vec<Asset>) -> (r: Assets)
        ensures
            r.unresolved@ == Seq::<UnresolvedAsset>::empty(),
            r.resolved == assets,
    {
        Assets { unresolved: Vec::new(), resolved: assets }
    }

    pub fn with_unresolved_assets(assets: Vec<UnresolvedAsset>) -> (r: Assets)
        ensures
            r.unresolved == assets,
            r.resolved@ == Seq::<Asset>::empty(),
    {
        Assets { unresolved: assets, resolved: Vec::new() }
    }

    pub fn is_empty(&self) -> (r: bool)
        ensures
            r == (self.unresolved@.len() == 0 && self.resolved@.len() == 0),
    {
        self.unresolved.len() == 0 && self.resolved.len() == 0
    }
}

} // verus!
