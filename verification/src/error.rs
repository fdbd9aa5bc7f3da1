//! The error type shared by the template compiler, path builder, sorter and
//! watcher.

use vstd::prelude::*;

verus! {

/// Spec-level shape of a [`MusoError`]: the same variants, with every carried
/// string abstracted to its character sequence.
pub enum SpecError {
    NotSupported,
    EmptyComments,
    InvalidParent { child: Seq<char> },
    InvalidRoot { path: Seq<char> },
    MissingTag { tag: Seq<char> },
    ResourceNotFound { path: Seq<char> },
    InvalidConfig { path: Seq<char>, reason: Seq<char> },
    FailedToParse,
    OptionalInDir,
    RequiredInFile,
}

/// Everything that can go wrong while compiling a template, building a path,
/// or sorting a file.
#[derive(Debug, PartialEq)]
pub enum MusoError {
    /// The file is not one of the supported audio container formats.
    NotSupported,
    /// The audio file carries no vorbis comment block.
    EmptyComments,
    /// A destination path has no parent directory.
    InvalidParent { child: String },
    /// The requested working path cannot serve as a root folder.
    InvalidRoot { path: String },
    /// A required placeholder's tag is absent from the metadata record.
    MissingTag { tag: String },
    /// A shared resource file was not found.
    ResourceNotFound { path: String },
    /// The configuration file could not be loaded.
    InvalidConfig { path: String, reason: String },
    /// The format string is not valid under the template grammar.
    FailedToParse,
    /// An optional placeholder inside a directory segment resolved to nothing.
    OptionalInDir,
    /// A file segment ended with no required placeholder other than `ext`.
    RequiredInFile,
}

impl View for MusoError {
    type V = SpecError;

    open spec fn view(&self) -> SpecError {
        match self {
            MusoError::NotSupported => SpecError::NotSupported,
            MusoError::EmptyComments => SpecError::EmptyComments,
            MusoError::InvalidParent { child } => SpecError::InvalidParent { child: child@ },
            MusoError::InvalidRoot { path } => SpecError::InvalidRoot { path: path@ },
            MusoError::MissingTag { tag } => SpecError::MissingTag { tag: tag@ },
            MusoError::ResourceNotFound { path } => SpecError::ResourceNotFound { path: path@ },
            MusoError::InvalidConfig { path, reason } => SpecError::InvalidConfig {
                path: path@,
                reason: reason@,
            },
            MusoError::FailedToParse => SpecError::FailedToParse,
            MusoError::OptionalInDir => SpecError::OptionalInDir,
            MusoError::RequiredInFile => SpecError::RequiredInFile,
        }
    }
}

} // verus!
