use vstd::prelude::*;

verus! {

/// Why a request, a response or a header was refused.
#[derive(Debug, Clone, Copy, PartialEq, Eq, Structural)]
pub enum Error {
    /// A number operand is not a valid base-16 number of the right width.
    InvalidNumber,
    /// A flag name is not one of the protocol's flags.
    InvalidFlag,
    /// The opcode is unknown, or its operands do not fit it.
    InvalidOpcode,
    /// The space name is not one of the protocol's spaces.
    InvalidSpace,
    /// Addresses cannot be mapped for this ROM layout.
    UnsupportedRomMapping,
    /// The ROM header checksum and its complement disagree.
    InvalidHeader,
    /// A device response does not end with a newline.
    ResponseNotTerminated,
    /// A line of a device response has no `key:value` shape.
    ResponseLineWithoutKey,
    /// A device response misses a field that is needed.
    MissingField,
    /// The first byte of a device response is neither 0 nor a newline.
    InvalidResponseStart,
    /// The device cannot read cartridge ROM.
    RomReadUnsupported,
    /// The device cannot write cartridge ROM.
    RomWriteUnsupported,
    /// A binary reply announces no data.
    InvalidReadSize,
    /// A reply of the wrong kind.
    UnexpectedResponse,
    /// No device has the name that a client asked for.
    InvalidDeviceName,
}

/// The description of each error.
pub open spec fn error_text(e: Error) -> Seq<char> {
    match e {
        Error::InvalidNumber => "Invalid number"@,
        Error::InvalidFlag => "Invalid flag"@,
        Error::InvalidOpcode => "Invalid Opcode"@,
        Error::InvalidSpace => "Invalid space"@,
        Error::UnsupportedRomMapping => "Unsupported RomMapping"@,
        Error::InvalidHeader => "Invalid header"@,
        Error::ResponseNotTerminated => "Invalid response - Does not end with newline"@,
        Error::ResponseLineWithoutKey => "Invalid response - Line does not have a key and a value"@,
        Error::MissingField => "Missing field in response"@,
        Error::InvalidResponseStart => "Invalid response - First byte of response is neither null or newline"@,
        Error::RomReadUnsupported => "ROM Reads are not supported on this device"@,
        Error::RomWriteUnsupported => "ROM Writes are not supported on this device"@,
        Error::InvalidReadSize => "Invalid Read Size"@,
        Error::UnexpectedResponse => "Invalid response"@,
        Error::InvalidDeviceName => "Invalid device name"@,
    }
}

impl Error {
    /// A short human-readable description.
    pub fn message(&self) -> (r: &'static str)
        ensures
            r@ == error_text(*self),
    {
        match self {
            Error::InvalidNumber => "Invalid number",
            Error::InvalidFlag => "Invalid flag",
            Error::InvalidOpcode => "Invalid Opcode",
            Error::InvalidSpace => "Invalid space",
            Error::UnsupportedRomMapping => "Unsupported RomMapping",
            Error::InvalidHeader => "Invalid header",
            Error::ResponseNotTerminated => "Invalid response - Does not end with newline",
            Error::ResponseLineWithoutKey => "Invalid response - Line does not have a key and a value",
            Error::MissingField => "Missing field in response",
            Error::InvalidResponseStart => "Invalid response - First byte of response is neither null or newline",
            Error::RomReadUnsupported => "ROM Reads are not supported on this device",
            Error::RomWriteUnsupported => "ROM Writes are not supported on this device",
            Error::InvalidReadSize => "Invalid Read Size",
            Error::UnexpectedResponse => "Invalid response",
            Error::InvalidDeviceName => "Invalid device name",
        }
    }
}

} // verus!
