//! What can go wrong while entries are read.

use vstd::prelude::*;

use crate::path::{PartModel, SourcePath};

verus! {

/// Why an entry could not be mapped to a node. Causes are given as the platform words them.
#[derive(Debug)]
pub enum IgnoreErrorKind {
    /// The extended attributes could not be listed or read.
    ErrorXattr {
        /// The path of the entry.
        path: SourcePath,
        /// The cause.
        source: String,
    },
    /// The target of a link could not be read.
    ErrorLink {
        /// The path of the entry.
        path: SourcePath,
        /// The cause.
        source: String,
    },
    /// The time of the last change is no timestamp.
    CtimeConversionToTimestampFailed {
        /// The seconds.
        ctime: i64,
        /// The nanoseconds.
        ctime_nsec: i64,
        /// The cause.
        source: String,
    },
    /// The metadata of an entry could not be read.
    AcquiringMetadataFailed {
        /// The name of the entry.
        name: String,
        /// The cause.
        source: String,
    },
    /// A time was refused.
    JiffError(String),
}

/// What an [`IgnoreErrorKind`] says. Paths are components and text.
pub enum ErrorModel {
    ErrorXattr(Seq<PartModel>, Seq<u8>, Seq<char>),
    ErrorLink(Seq<PartModel>, Seq<u8>, Seq<char>),
    CtimeConversionToTimestampFailed(i64, i64, Seq<char>),
    AcquiringMetadataFailed(Seq<char>, Seq<char>),
    JiffError(Seq<char>),
}

impl View for IgnoreErrorKind {
    type V = ErrorModel;

    open spec fn view(&self) -> ErrorModel {
        match *self {
            IgnoreErrorKind::ErrorXattr { path, source } => ErrorModel::ErrorXattr(
                path@,
                path.text@,
                source@,
            ),
            IgnoreErrorKind::ErrorLink { path, source } => ErrorModel::ErrorLink(
                path@,
                path.text@,
                source@,
            ),
            IgnoreErrorKind::CtimeConversionToTimestampFailed { ctime, ctime_nsec, source } => {
                ErrorModel::CtimeConversionToTimestampFailed(ctime, ctime_nsec, source@)
            },
            IgnoreErrorKind::AcquiringMetadataFailed { name, source } => {
                ErrorModel::AcquiringMetadataFailed(name@, source@)
            },
            IgnoreErrorKind::JiffError(source) => ErrorModel::JiffError(source@),
        }
    }
}

/// What an [`EntryError`] says.
pub enum EntryErrorModel {
    Walk(Seq<char>),
    Mapping(ErrorModel),
}

impl View for EntryError {
    type V = EntryErrorModel;

    open spec fn view(&self) -> EntryErrorModel {
        match *self {
            EntryError::Walk(source) => EntryErrorModel::Walk(source@),
            EntryError::Mapping(e) => EntryErrorModel::Mapping(e@),
        }
    }
}

/// Why the walk could not give an entry.
#[derive(Debug)]
pub enum EntryError {
    /// The walk failed, for the cause given.
    Walk(String),
    /// The entry could not be mapped.
    Mapping(IgnoreErrorKind),
}

impl EntryError {
    /// What to tell the user.
    pub fn message(&self) -> (r: &'static str)
        ensures
            r@ == match *self {
                EntryError::Walk(_) => "Failed to get next entry from walk iterator."@,
                EntryError::Mapping(_) => "Failed to map Directory entry to ReadSourceEntry."@,
            },
    {
        match self {
            EntryError::Walk(_) => "Failed to get next entry from walk iterator.",
            EntryError::Mapping(_) => "Failed to map Directory entry to ReadSourceEntry.",
        }
    }
}

/// What an error says is what its fields say.
pub proof fn law_error_models_are_the_errors(e: EntryError, kind: IgnoreErrorKind)
    ensures
        e matches EntryError::Walk(source) ==> e@ == EntryErrorModel::Walk(source@),
        e matches EntryError::Mapping(own) ==> e@ == EntryErrorModel::Mapping(own@),
        kind matches IgnoreErrorKind::ErrorXattr { path, source } ==> kind@
            == ErrorModel::ErrorXattr(path@, path.text@, source@),
        kind matches IgnoreErrorKind::ErrorLink { path, source } ==> kind@ == ErrorModel::ErrorLink(
            path@,
            path.text@,
            source@,
        ),
        kind matches IgnoreErrorKind::AcquiringMetadataFailed { name, source } ==> kind@
            == ErrorModel::AcquiringMetadataFailed(name@, source@),
        kind matches IgnoreErrorKind::JiffError(source) ==> kind@ == ErrorModel::JiffError(source@),
        kind matches IgnoreErrorKind::CtimeConversionToTimestampFailed { ctime, ctime_nsec, source }
            ==> kind@ == ErrorModel::CtimeConversionToTimestampFailed(ctime, ctime_nsec, source@),
{
}

} // verus!
