use vstd::prelude::*;

verus! {

/// `std::io::Error` is carried through the library's error type untouched.
#[verifier::external_type_specification]
#[verifier::external_body]
pub struct ExIoError(std::io::Error);

/// `std::array::TryFromSliceError` is carried through the library's error type untouched.
#[verifier::external_type_specification]
#[verifier::external_body]
pub struct ExTryFromSliceError(std::array::TryFromSliceError);

/// Errors of PRX and PSAR decryption.
#[derive(Debug)]
pub enum PspError {
    /// The file is too small to be a valid PRX.
    InvalidHeader,
    /// Invalid magic number.
    InvalidMagicNumber(u32),
    /// An I/O error (also raised by a decompressor that runs out of data).
    Io(std::io::Error),
    /// A slice could not be converted into an array.
    SliceConversion(std::array::TryFromSliceError),
    /// The size of the file could not be read.
    SizeError,
    /// A field could not be read at its offset.
    PointerError,
    /// The tag was not found or is invalid.
    TagNotFound,
    /// A SHA-1 (or structural) validation failed.
    ValidationFailed,
    /// The header could not be decrypted.
    HeaderDecryptionFailed,
    /// The KIRK header announces a mode other than the expected one.
    InvalidMode,
    /// Decryption failed.
    DecryptionFailed,
    /// The output file could not be created.
    FileCreationFailed,
    /// A type 5 PRX needs a seed.
    MissingSeed,
    /// Alignment fault.
    AlignmentFault,
    /// The file (or a chunk of it) is shorter than its header announces.
    TooShort,
    /// The extraction folders could not be created.
    FolderCreationFailed,
    /// A name in the archive is not a valid NUL-terminated UTF-8 string.
    StringRepresentation,
}

/// Errors of the KIRK engine.
#[derive(Debug, PartialEq, Eq, Structural)]
pub enum KirkError {
    /// The key id does not exist in the key vault.
    InvalidKeyId,
    /// The memory block is not a multiple of 16 bytes, as AES needs.
    DecryptionFailed,
    /// A field could not be converted.
    ConversionFailed,
}

} // verus!
