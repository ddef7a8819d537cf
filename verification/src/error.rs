//! Errors of the client.

use vstd::prelude::*;

use crate::text::texts;

verus! {

/// What is wrong with a kebab-case label.
#[derive(Clone, Copy, Debug, PartialEq, Eq, Structural)]
pub enum InvalidLabel {
    /// The label is empty.
    Empty,
    /// A word of the label is empty.
    EmptyWord,
    /// A word holds a character that is neither a lower-case ASCII letter nor an ASCII digit.
    InvalidChar,
    /// A word does not start with a lower-case ASCII letter.
    InvalidWordFirstChar,
}

/// What is wrong with the text of a content digest.
#[derive(Clone, Copy, Debug, PartialEq, Eq, Structural)]
pub enum InvalidDigest {
    /// It does not start with `sha256:`.
    MissingPrefix,
    /// It does not have 64 digits but this many bytes.
    Length(usize),
    /// It holds this character, which is not a hexadecimal digit.
    NotHex(char),
}

/// Why an operation failed.
#[derive(Debug, PartialEq)]
pub enum Error {
    /// The registry does not have the package.
    PackageNotFound,
    /// The registry refused or garbled an exchange.
    RegistryError(String),
    /// The metadata of the registry could not be had: why, and what caused that, the nearest cause first.
    RegistryMetadataError(String, Vec<String>),
    /// The data is no component: why, and what caused that, the nearest cause first.
    InvalidComponent(String, Vec<String>),
    /// The credentials cannot be used.
    CredentialError(String),
    /// The manifest of a package is unusable.
    InvalidPackageManifest(String),
    /// The text is no package reference.
    InvalidPackageRef(String),
    /// The text is no label.
    InvalidLabel(InvalidLabel),
    /// The text is no content digest.
    InvalidContentDigest(InvalidDigest),
}

/// An error with its text as a sequence of characters.
pub enum ErrorView {
    PackageNotFound,
    RegistryError(Seq<char>),
    RegistryMetadataError(Seq<char>, Seq<Seq<char>>),
    InvalidComponent(Seq<char>, Seq<Seq<char>>),
    CredentialError(Seq<char>),
    InvalidPackageManifest(Seq<char>),
    InvalidPackageRef(Seq<char>),
    InvalidLabel(InvalidLabel),
    InvalidContentDigest(InvalidDigest),
}

impl View for Error {
    type V = ErrorView;

    open spec fn view(&self) -> ErrorView {
        match self {
            Error::PackageNotFound => ErrorView::PackageNotFound,
            Error::RegistryError(t) => ErrorView::RegistryError(t@),
            Error::RegistryMetadataError(t, causes) => ErrorView::RegistryMetadataError(
                t@,
                texts(causes@),
            ),
            Error::InvalidComponent(t, causes) => ErrorView::InvalidComponent(t@, texts(causes@)),
            Error::CredentialError(t) => ErrorView::CredentialError(t@),
            Error::InvalidPackageManifest(t) => ErrorView::InvalidPackageManifest(t@),
            Error::InvalidPackageRef(t) => ErrorView::InvalidPackageRef(t@),
            Error::InvalidLabel(k) => ErrorView::InvalidLabel(*k),
            Error::InvalidContentDigest(k) => ErrorView::InvalidContentDigest(*k),
        }
    }
}

} // verus!
