//! Error values and the result type of the storage calls.

use vstd::prelude::*;

verus! {

/// Why a call to the storage tool failed; each variant carries the cause as
/// text.
#[derive(Debug)]
pub enum SystemError {
    SpawnProcess(String),
    ReadingFromString(String),
    DeleteSnapshots(String),
    OpeningFile(String),
}

/// What a storage call hands back: the text it produced, or the failure.
pub type SystemResult = Result<String, SystemError>;

/// Why a configuration was refused.
#[derive(Debug, Clone, Copy, PartialEq, Eq, Structural)]
pub enum ConfigError {
    /// No pool was named.
    EmptyPool,
    /// No cutoff date could be had: the text given is no date of the
    /// snapshot format in the local time zone, or the default could not be
    /// computed.
    InvalidDate,
    /// An exclude file was named and does not exist.
    MissingExcludeFile,
}

} // verus!
