//! What can go wrong when a store is opened or written to.

use vstd::prelude::*;

verus! {

/// The failure that the record encoder reports.
#[verifier::external_type_specification]
#[verifier::external_body]
pub struct ExErrorKind(bincode::ErrorKind);

/// The failure that the operating system reports for a file operation.
#[verifier::external_type_specification]
#[verifier::external_body]
pub struct ExIoError(std::io::Error);

/// Why a store could not be opened. Each of these ends the attempt: nothing
/// is retried and no partial store is handed out.
#[derive(Debug)]
pub enum KVRInitializationError {
    MagicDeserializationFailed(Box<bincode::ErrorKind>),
    MagicVerificationFailed,
    FailedToOpenFile(std::io::Error),
    FailedToReadFile(std::io::Error),
    FailedToDeserializeValue(Box<bincode::ErrorKind>),
}

/// Why an insert was refused or could not be made durable.
#[derive(Debug)]
pub enum KVRInsertionError {
    KeyExists,
    SerializationError(Box<bincode::ErrorKind>),
    IOError(std::io::Error),
}

/// Why an update was refused or could not be made durable.
#[derive(Debug)]
pub enum KVRUpdateError {
    KeyDoesNotExist,
    PrevRevMismatch,
    SerializationError(Box<bincode::ErrorKind>),
    IOError(std::io::Error),
}

} // verus!
