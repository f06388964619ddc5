use vstd::prelude::*;

verus! {

/// What went wrong with the stream underneath a read or a write.
#[derive(Debug, Clone, Copy, PartialEq, Eq, Structural)]
pub enum IoError {
    /// The input ended before the value was complete.
    UnexpectedEof,
    /// The output accepted no more bytes.
    WriteZero,
    /// Any other failure of the stream.
    Other,
}

/// Why a value could not be read.
#[derive(Debug, Clone, Copy, PartialEq, Eq, Structural)]
pub enum ReadError {
    /// The stream failed; for a byte reader, the input ran out.
    IO(IoError),
    /// A constant that the format puts before a field had another value.
    InvalidExpectation,
    /// A tag that names no variant of the enum being read.
    UnknownTag,
}

/// Why a value could not be written.
#[derive(Debug, Clone, Copy, PartialEq, Eq, Structural)]
pub enum WriteError {
    /// The stream failed.
    IO(IoError),
    /// A sequence whose length does not fit its length prefix.
    TooLarge(usize),
}

pub type ReadResult<T> = Result<T, ReadError>;

pub type WriteResult = Result<(), WriteError>;

impl From<IoError> for ReadError {
    fn from(cause: IoError) -> (r: Self)
        ensures
            r == ReadError::IO(cause),
    {
        ReadError::IO(cause)
    }
}

impl vstd::std_specs::convert::FromSpecImpl<IoError> for ReadError {
    open spec fn obeys_from_spec() -> bool {
        true
    }

    open spec fn from_spec(cause: IoError) -> Self {
        ReadError::IO(cause)
    }
}

impl From<IoError> for WriteError {
    fn from(cause: IoError) -> (r: Self)
        ensures
            r == WriteError::IO(cause),
    {
        WriteError::IO(cause)
    }
}

impl vstd::std_specs::convert::FromSpecImpl<IoError> for WriteError {
    open spec fn obeys_from_spec() -> bool {
        true
    }

    open spec fn from_spec(cause: IoError) -> Self {
        WriteError::IO(cause)
    }
}

} // verus!
