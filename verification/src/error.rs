use vstd::prelude::*;

verus! {

/// Why a byte buffer could not be decoded (or encoded) as an on-disk structure.
#[derive(Debug, Clone, Copy, PartialEq, Eq)]
pub enum ParseError {
    /// The buffer holds fewer bytes than the structure needs.
    BufferTooSmall { expected: usize, actual: usize },
    /// The magic number of the structure is not the one its kind carries.
    InvalidMagic { expected: u32, actual: u32 },
    /// The structure has a version this library does not read.
    UnsupportedVersion(u32),
    /// A field holds a value that the format forbids.
    InvalidField { field: &'static str, value: u64 },
    /// The stored checksum does not match the contents.
    CrcMismatch { what: &'static str },
    /// An integer did not fit the type it is stored in.
    InvalidInt(core::num::TryFromIntError),
}

/// Why a block device refused a read or a write.
#[derive(Debug, Clone, PartialEq, Eq)]
pub enum DeviceError {
    Io,
    ShortRead { expected: usize, actual: usize },
    ShortWrite { expected: usize, actual: usize },
    OutOfRange,
}

/// Why a structure could not be read from a device.
#[derive(Debug, Clone, PartialEq, Eq)]
pub enum ReadError {
    Device(DeviceError),
    Parse(ParseError),
}

/// Why a filesystem could not be written to a device.
#[derive(Debug, Clone, PartialEq, Eq)]
pub enum WriteError {
    Device(DeviceError),
    Parse(ParseError),
    TryFromInt(core::num::TryFromIntError),
}

impl From<DeviceError> for ReadError {
    fn from(value: DeviceError) -> (r: Self) {
        ReadError::Device(value)
    }
}

impl vstd::std_specs::convert::FromSpecImpl<DeviceError> for ReadError {
    open spec fn obeys_from_spec() -> bool {
        true
    }

    open spec fn from_spec(value: DeviceError) -> Self {
        ReadError::Device(value)
    }
}

impl From<ParseError> for ReadError {
    fn from(value: ParseError) -> (r: Self) {
        ReadError::Parse(value)
    }
}

impl vstd::std_specs::convert::FromSpecImpl<ParseError> for ReadError {
    open spec fn obeys_from_spec() -> bool {
        true
    }

    open spec fn from_spec(value: ParseError) -> Self {
        ReadError::Parse(value)
    }
}

impl From<DeviceError> for WriteError {
    fn from(value: DeviceError) -> (r: Self) {
        WriteError::Device(value)
    }
}

impl vstd::std_specs::convert::FromSpecImpl<DeviceError> for WriteError {
    open spec fn obeys_from_spec() -> bool {
        true
    }

    open spec fn from_spec(value: DeviceError) -> Self {
        WriteError::Device(value)
    }
}

impl From<ParseError> for WriteError {
    fn from(value: ParseError) -> (r: Self) {
        WriteError::Parse(value)
    }
}

impl vstd::std_specs::convert::FromSpecImpl<ParseError> for WriteError {
    open spec fn obeys_from_spec() -> bool {
        true
    }

    open spec fn from_spec(value: ParseError) -> Self {
        WriteError::Parse(value)
    }
}

/// `TryFromIntError` is `Copy`; its `Clone` gives back an equal value. Stated so
/// that the derived `Clone` of [`WriteError`] can be checked.
pub assume_specification[ <core::num::TryFromIntError as Clone>::clone ](
    e: &core::num::TryFromIntError,
) -> (r: core::num::TryFromIntError)
    ensures
        r == *e,
;

} // verus!
