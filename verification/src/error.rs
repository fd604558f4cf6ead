//! Status codes of the store and the error type of the crate.
use vstd::prelude::*;

verus! {

/// Outcome of a store operation. `IMAGED_OK` means that the operation was
/// carried out; every other value names the reason why it was not.
#[derive(Clone, Copy, Debug, PartialEq, Eq, Structural)]
pub enum ImagedStatus {
    IMAGED_OK,
    IMAGED_ERR,
    IMAGED_ERR_CANNOT_CREATE_FILE,
    IMAGED_ERR_FILE_DOES_NOT_EXIST,
    IMAGED_ERR_FILE_ALREADY_EXISTS,
    IMAGED_ERR_SEEK,
    IMAGED_ERR_MAP_FAILED,
    IMAGED_ERR_INVALID_KEY,
    IMAGED_ERR_INVALID_FILE,
    IMAGED_ERR_LOCKED,
}

impl ImagedStatus {
    /// Whether an operation that ended with this status may succeed when it
    /// is tried again later: only a lock held by someone else goes away.
    pub open spec fn spec_is_retryable(self) -> bool {
        self == ImagedStatus::IMAGED_ERR_LOCKED
    }

    /// Tells the caller whether to try again. The store never blocks; a
    /// caller that wants to wait for a lock polls, and decides with this.
    pub fn is_retryable(self) -> (b: bool)
        ensures
            b == self.spec_is_retryable(),
    {
        self == ImagedStatus::IMAGED_ERR_LOCKED
    }
}

/// Crate-wide error type.
#[derive(Clone, Copy, Debug, PartialEq, Eq, Structural)]
pub enum Error {
    /// The root of a store could not be created or read.
    CannotOpenDB,
    /// A path is not valid text for a file name.
    InvalidPath,
    /// A buffer could not be obtained.
    NullPointer,
    /// Image data was accessed with a sample type of the wrong size, or a
    /// conversion is not defined for the types involved.
    IncorrectImageType,
    /// An image was accessed beyond its dimensions.
    OutOfBounds,
    /// A store operation ended with the given status.
    Sys(ImagedStatus),
}

impl Error {
    /// Whether the failed operation is worth trying again.
    pub open spec fn spec_is_retryable(self) -> bool {
        self == Error::Sys(ImagedStatus::IMAGED_ERR_LOCKED)
    }

    /// Tells the caller whether to try again: only `Sys(IMAGED_ERR_LOCKED)`
    /// is retryable, every other error is final for the operation.
    pub fn is_retryable(self) -> (b: bool)
        ensures
            b == self.spec_is_retryable(),
    {
        match self {
            Error::Sys(s) => s.is_retryable(),
            _ => false,
        }
    }

    /// The message of the error.
    pub fn message(&self) -> (s: &'static str)
        ensures
            s@ == Self::spec_message(*self),
    {
        match self {
            Error::CannotOpenDB => "There was an error when attempting to open the database",
            Error::InvalidPath => "An invalid path was encountered",
            Error::NullPointer => "A NULL pointer was encountered",
            Error::IncorrectImageType => "Image data was accessed using the wrong data type",
            Error::OutOfBounds => "An image has been accessed beyond the available dimensions",
            Error::Sys(_) => "Imaged specified error",
        }
    }

    /// The text that `message` returns for each error.
    pub open spec fn spec_message(e: Error) -> Seq<char> {
        match e {
            Error::CannotOpenDB => "There was an error when attempting to open the database"@,
            Error::InvalidPath => "An invalid path was encountered"@,
            Error::NullPointer => "A NULL pointer was encountered"@,
            Error::IncorrectImageType => "Image data was accessed using the wrong data type"@,
            Error::OutOfBounds => "An image has been accessed beyond the available dimensions"@,
            Error::Sys(_) => "Imaged specified error"@,
        }
    }
}

} // verus!
