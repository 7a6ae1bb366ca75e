//! What can go wrong.

use vstd::prelude::*;

verus! {

/// Why a text is no octal number that fits.
#[derive(Debug, Clone, Copy, PartialEq, Eq, Structural)]
pub enum ParseOctalError {
    /// There is nothing to parse.
    Empty,
    /// A character that is no octal digit, or a sign with no digit behind it.
    InvalidDigit,
    /// The number takes more than 32 bits.
    PosOverflow,
}

/// An error of this library.
#[derive(Debug)]
pub enum CargoDebError {
    /// The configuration is not usable, for the reason given.
    Str(&'static str),
    /// There is no variant of this name.
    VariantNotFound(String),
    /// No file was found for this asset.
    AssetFileNotFound(String),
    /// A number could not be read.
    NumParse(&'static str, ParseOctalError),
    /// The search for the files of an asset failed, for the reason given.
    Glob(String),
    /// What was to be done with a file, the reason why it failed, and the path of the file.
    IoFile(&'static str, String, String),
    /// The reason why a command could not be run, and the command.
    CommandFailed(String, &'static str),
}

/// An error with its texts as sequences.
pub enum ErrorView {
    Str(Seq<char>),
    VariantNotFound(Seq<char>),
    AssetFileNotFound(Seq<char>),
    NumParse(Seq<char>, ParseOctalError),
    Glob(Seq<char>),
    IoFile(Seq<char>, Seq<char>, Seq<char>),
    CommandFailed(Seq<char>, Seq<char>),
}

impl View for CargoDebError {
    type V = ErrorView;

    open spec fn view(&self) -> ErrorView {
        match self {
            CargoDebError::Str(m) => ErrorView::Str(m@),
            CargoDebError::VariantNotFound(v) => ErrorView::VariantNotFound(v@),
            CargoDebError::AssetFileNotFound(p) => ErrorView::AssetFileNotFound(p@),
            CargoDebError::NumParse(m, e) => ErrorView::NumParse(m@, *e),
            CargoDebError::Glob(m) => ErrorView::Glob(m@),
            CargoDebError::IoFile(m, e, p) => ErrorView::IoFile(m@, e@, p@),
            CargoDebError::CommandFailed(e, c) => ErrorView::CommandFailed(e@, c@),
        }
    }
}

pub type CDResult<T> = Result<T, CargoDebError>;

/// What came of an attempt to read a file or to run a command: a value, or the reason why it
/// failed.
pub type Attempt<T> = Result<T, String>;

/// The result is the given error.
pub open spec fn fails_with<T>(r: CDResult<T>, e: ErrorView) -> bool {
    r matches Err(f) && f@ == e
}

} // verus!
