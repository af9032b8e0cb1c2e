//! Failure conditions of the registry store.

use vstd::prelude::*;

verus! {

/// Everything that can go wrong while loading, decoding or re-encoding the
/// registry.  `CorruptedFileContent` means the container is too short to hold
/// even an empty payload; `WrongPassword` covers both a mistyped password and
/// a tampered ciphertext (the tag check cannot tell them apart, by design);
/// `WrongServiceRecordData` is a malformed record line in the decrypted
/// payload.
#[derive(Debug, Clone, Copy, PartialEq, Eq, Structural)]
pub enum Error {
    NoHomeDirectory,
    FileNotFound,
    FileError,
    CorruptedFileContent,
    WrongPassword,
    WrongServiceRecordData,
    UnknownCommand,
}

impl Error {
    /// A short human-readable account of the failure.
    pub fn description(&self) -> (r: &'static str)
        ensures
            *self == Error::NoHomeDirectory ==> r@ == "Unable to get home directory"@,
            *self == Error::FileNotFound ==> r@ == "File not found"@,
            *self == Error::FileError ==> r@ == "File operation error"@,
            *self == Error::CorruptedFileContent ==> r@ == "File is corrupted"@,
            *self == Error::WrongPassword ==> r@ == "Wrong password"@,
            *self == Error::WrongServiceRecordData ==> r@ == "Unable to parse TOTP secret"@,
            *self == Error::UnknownCommand ==> r@ == "Unknown Command"@,
    {
        match *self {
            Error::NoHomeDirectory => "Unable to get home directory",
            Error::FileNotFound => "File not found",
            Error::FileError => "File operation error",
            Error::CorruptedFileContent => "File is corrupted",
            Error::WrongPassword => "Wrong password",
            Error::WrongServiceRecordData => "Unable to parse TOTP secret",
            Error::UnknownCommand => "Unknown Command",
        }
    }
}

} // verus!
