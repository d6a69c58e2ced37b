//! The errors that the library reports.

use vstd::prelude::*;
use crate::text::{decimal, decimal_text};

verus! {

/// What can go wrong with a profile.
#[derive(Clone, Debug, PartialEq, Eq)]
pub enum ProfileError {
    /// The file at this path does not hold a profile.
    InvalidFormat(String),
    /// The profile could not be written out or read back; the text says why.
    SerializationError(String),
    /// No profile file exists at this path.
    NoSuchProfile(String),
    /// A profile of that name exists already.
    AlreadyExists,
    /// The base directory is missing or is not a directory.
    InvalidBase,
}

/// What can go wrong with the backups of a profile.
#[derive(Clone, Copy, Debug, PartialEq, Eq, Structural)]
pub enum BackupError {
    /// The latest backup was asked for and the profile has none.
    BackupsEmpty,
    /// No backup of the profile has this id.
    NotFound(u32),
    /// Every id has been handed out.
    IdsExhausted,
}

/// Any failure of the library or of the storage beneath it.
#[derive(Clone, Debug, PartialEq, Eq)]
pub enum Error {
    /// The ledger could not be read or written; the text says why.
    Sqlite(String),
    /// A file or directory could not be copied, created or removed; the text
    /// says why.
    Io(String),
    /// The profile is missing or invalid.
    ProfileError(ProfileError),
    /// The backup asked for cannot be had.
    BackupError(BackupError),
}

impl ProfileError {
    /// The error in words.
    pub open spec fn text(self) -> Seq<char> {
        match self {
            ProfileError::InvalidFormat(path) => "invalid profile format: "@ + path@,
            ProfileError::SerializationError(why) => "invalid profile format: "@ + why@,
            ProfileError::NoSuchProfile(path) => "no profile with the given name: "@ + path@,
            ProfileError::AlreadyExists => "profile already exists"@,
            ProfileError::InvalidBase => "invalid base directory"@,
        }
    }

    /// Returns the error in words.
    pub fn message(&self) -> (r: String)
        ensures
            r@ == self.text(),
    {
        match self {
            ProfileError::InvalidFormat(path) => String::from_str("invalid profile format: ").concat(
                path.as_str(),
            ),
            ProfileError::SerializationError(why) => String::from_str(
                "invalid profile format: ",
            ).concat(why.as_str()),
            ProfileError::NoSuchProfile(path) => String::from_str(
                "no profile with the given name: ",
            ).concat(path.as_str()),
            ProfileError::AlreadyExists => String::from_str("profile already exists"),
            ProfileError::InvalidBase => String::from_str("invalid base directory"),
        }
    }
}

impl BackupError {
    /// The error in words.
    pub open spec fn text(self) -> Seq<char> {
        match self {
            BackupError::BackupsEmpty => "backups database is empty"@,
            BackupError::NotFound(id) => "no backup with the given id: "@ + decimal(id as nat),
            BackupError::IdsExhausted => "no id is left for another backup"@,
        }
    }

    /// Returns the error in words.
    pub fn message(&self) -> (r: String)
        ensures
            r@ == self.text(),
    {
        match self {
            BackupError::BackupsEmpty => String::from_str("backups database is empty"),
            BackupError::NotFound(id) => {
                let number = decimal_text(*id);
                String::from_str("no backup with the given id: ").concat(number.as_str())
            },
            BackupError::IdsExhausted => String::from_str("no id is left for another backup"),
        }
    }
}

impl Error {
    /// The error in words.
    pub open spec fn text(self) -> Seq<char> {
        match self {
            Error::Sqlite(why) => "sqlite error: "@ + why@,
            Error::Io(why) => "io error: "@ + why@,
            Error::ProfileError(e) => "profile error: "@ + e.text(),
            Error::BackupError(e) => "backup error: "@ + e.text(),
        }
    }

    /// Returns the error in words.
    pub fn message(&self) -> (r: String)
        ensures
            r@ == self.text(),
    {
        match self {
            Error::Sqlite(why) => String::from_str("sqlite error: ").concat(why.as_str()),
            Error::Io(why) => String::from_str("io error: ").concat(why.as_str()),
            Error::ProfileError(e) => {
                let inner = e.message();
                String::from_str("profile error: ").concat(inner.as_str())
            },
            Error::BackupError(e) => {
                let inner = e.message();
                String::from_str("backup error: ").concat(inner.as_str())
            },
        }
    }
}

} // verus!
