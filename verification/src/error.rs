//! The single tagged error of the crate.
//!
//! Every fallible operation of the library returns `Result<_, Error>`.
//! Some variants are only ever produced by the unverified shell around the
//! library (file lookup, the external converter tool); they are listed here
//! so that the whole toolkit shares one error vocabulary.

use vstd::prelude::*;

verus! {

/// Why an operation of the toolkit failed.
#[derive(Debug, Clone, PartialEq, Eq)]
pub enum Error {
    /// An operating-system I/O failure (reported by the shell around the library).
    Io(String),
    /// A binary file did not match its documented layout.
    BinaryFormat,
    /// Bytes that had to be text were not valid UTF-8.
    Utf8,
    /// The WAV front-end rejected or failed on a file; the payload is its message.
    Wav(String),
    /// No file of the named kind was found in the input folder.
    MissingFile(String),
    /// No folder of the named kind was found in the input folder.
    MissingFolder(String),
    /// The base name of a path could not be determined.
    BasenameUnavailable(String),
    /// The archive's base name matches no pak name, so no lookup entries apply.
    NoMatchInLookup,
    /// A pak-names file whose name is neither the SFX nor the stream default.
    UnknownLookupFile,
    /// The pak index is valid but the lookup table holds no entry for it.
    NoEntryForPakIndex,
    /// The external converter tool could not be found.
    ExternalToolMissing,
    /// The external converter tool ran and returned the given exit code.
    ExternalToolFailed(i32),
    /// Lookup entries for the archive are not back-to-back even after sorting.
    UnsortedBanks,
    /// A helper worker failed; the payload is its message.
    WorkerFailure(String),
    /// A WAV file was readable but unusable (for example, not mono).
    InvalidWav(String),
    /// Sound bytes inside a bank do not form valid sound data.
    CorruptSoundData,
    /// A remembered lookup-table index no longer exists in the table.
    NoIndexInLookup,
}

impl Error {
    /// A human-readable description, used by callers in place of `Display`.
    pub fn message(&self) -> String {
        match self {
            Error::Io(m) => String::from_str("i/o error: ").concat(m.as_str()),
            Error::BinaryFormat => String::from_str("binary data does not match the expected layout"),
            Error::Utf8 => String::from_str("bytes are not valid UTF-8 text"),
            Error::Wav(m) => String::from_str("wav error: ").concat(m.as_str()),
            Error::MissingFile(k) => String::from_str("no ").concat(k.as_str()).concat(
                " file found in input folder",
            ),
            Error::MissingFolder(k) => String::from_str("no ").concat(k.as_str()).concat(
                " folder found in input folder",
            ),
            Error::BasenameUnavailable(p) => String::from_str("can't get the basename of ")
                .concat(p.as_str()),
            Error::NoMatchInLookup => String::from_str(
                "couldn't match file name with a valid soundbank",
            ),
            Error::UnknownLookupFile => String::from_str(
                "unknown lookup file, keep the lookup file name same as default",
            ),
            Error::NoEntryForPakIndex => String::from_str(
                "no entry match pak index in the lookup file",
            ),
            Error::ExternalToolMissing => String::from_str(
                "can't find the external converter beside the program",
            ),
            Error::ExternalToolFailed(_) => String::from_str(
                "the external converter returned a failure exit code",
            ),
            Error::UnsortedBanks => String::from_str(
                "unsorted sfx banks, the bank entries are expected to be back to back",
            ),
            Error::WorkerFailure(m) => String::from_str("worker thread error: ").concat(
                m.as_str(),
            ),
            Error::InvalidWav(m) => String::from_str("invalid wav file: ").concat(m.as_str()),
            Error::CorruptSoundData => String::from_str(
                "found invalid sound data while converting",
            ),
            Error::NoIndexInLookup => String::from_str("can't find index in lookup table"),
        }
    }
}

} // verus!
