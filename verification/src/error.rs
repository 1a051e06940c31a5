//! What can go wrong, and the message shown for it.

use vstd::prelude::*;
use vstd::string::*;

verus! {

/// Why the catalog could not be fetched.
#[derive(Debug, PartialEq, Eq)]
pub enum FetchError {
    /// The feed could not be reached, or its answer could not be read.
    Transport(String),
    /// The feed answered with a status outside 200 to 299.
    Status(u16),
    /// The body is not a release in the expected form.
    Parse(String),
}

/// Why a bundle could not be downloaded.
#[derive(Debug, PartialEq, Eq)]
pub enum DownloadError {
    /// The request failed.
    Transport(String),
    /// The body broke off while it was read.
    Read(String),
}

/// Why the fonts of a bundle could not be extracted.
#[derive(Debug, PartialEq, Eq)]
pub enum ExtractError {
    /// The bytes are not an xz-compressed tar archive to their end.
    InvalidArchive(String),
    /// An entry of the archive has a path without a file name.
    MissingFileName,
    /// A font could not be written to its place.
    Write(String),
}

/// Why an install run stopped.
#[derive(Debug, PartialEq, Eq)]
pub enum InstallError {
    Download(DownloadError),
    Extract(ExtractError),
}

/// An `ExtractError` with its message as a sequence of characters.
pub enum ExtractErrorView {
    InvalidArchive(Seq<char>),
    MissingFileName,
    Write(Seq<char>),
}

impl View for ExtractError {
    type V = ExtractErrorView;

    open spec fn view(&self) -> ExtractErrorView {
        match self {
            ExtractError::InvalidArchive(reason) => ExtractErrorView::InvalidArchive(reason@),
            ExtractError::MissingFileName => ExtractErrorView::MissingFileName,
            ExtractError::Write(reason) => ExtractErrorView::Write(reason@),
        }
    }
}

/// The message for an entry whose path has no file name.
pub open spec fn missing_file_name_message() -> Seq<char> {
    "encountered archive entry without filename"@
}

impl DownloadError {
    /// The message of this error.
    pub open spec fn message_spec(&self) -> Seq<char> {
        match self {
            DownloadError::Transport(reason) => reason@,
            DownloadError::Read(reason) => reason@,
        }
    }

    /// The message shown for this error.
    pub fn message(&self) -> (text: String)
        ensures
            text@ == self.message_spec(),
    {
        match self {
            DownloadError::Transport(reason) => reason.clone(),
            DownloadError::Read(reason) => reason.clone(),
        }
    }
}

impl ExtractError {
    /// The message of this error.
    pub open spec fn message_spec(&self) -> Seq<char> {
        match self {
            ExtractError::InvalidArchive(reason) => reason@,
            ExtractError::MissingFileName => missing_file_name_message(),
            ExtractError::Write(reason) => reason@,
        }
    }

    /// The message shown for this error.
    pub fn message(&self) -> (text: String)
        ensures
            text@ == self.message_spec(),
    {
        match self {
            ExtractError::InvalidArchive(reason) => reason.clone(),
            ExtractError::MissingFileName => "encountered archive entry without filename".to_owned(),
            ExtractError::Write(reason) => reason.clone(),
        }
    }
}

impl InstallError {
    /// The message of this error: that of the step that failed.
    pub open spec fn message_spec(&self) -> Seq<char> {
        match self {
            InstallError::Download(error) => error.message_spec(),
            InstallError::Extract(error) => error.message_spec(),
        }
    }

    /// The message shown for this error.
    pub fn message(&self) -> (text: String)
        ensures
            text@ == self.message_spec(),
    {
        match self {
            InstallError::Download(error) => error.message(),
            InstallError::Extract(error) => error.message(),
        }
    }
}

} // verus!
