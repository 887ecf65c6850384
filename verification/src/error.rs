//! Why a descriptor does not resolve.
use crate::number::{signed_numeral, write_signed, NumberError};
use vstd::prelude::*;

verus! {

/// Why the address behind `tcp://` is no socket address.
#[derive(Clone, Copy, Debug, PartialEq, Eq)]
pub enum AddressError {
    /// The address is no literal and holds no colon that parts a host from a
    /// port.
    MissingPort,
    /// What follows the last colon is no port number.
    InvalidPort,
    /// The host did not resolve to any address.
    Unresolved,
}

/// Errors while processing service bindings.
#[derive(Clone, Copy, Debug, PartialEq, Eq)]
#[non_exhaustive]
pub enum Error {
    /// Address cannot be parsed and did not resolve to a known domain.
    BadAddress(AddressError),
    /// Descriptor value cannot be parsed to a number.
    BadDescriptor(NumberError),
    /// Descriptor value exceeds acceptable range.
    DescriptorOutOfRange(i32),
    /// Descriptor environment variable (`LISTEN_FDS`) is missing.
    DescriptorsMissing,
    /// Specified URI scheme is not supported.
    UnsupportedScheme,
}

impl From<NumberError> for Error {
    fn from(error: NumberError) -> (res: Error) {
        Error::BadDescriptor(error)
    }
}

impl vstd::std_specs::convert::FromSpecImpl<NumberError> for Error {
    open spec fn obeys_from_spec() -> bool {
        true
    }

    open spec fn from_spec(error: NumberError) -> Error {
        Error::BadDescriptor(error)
    }
}

/// The name of the number error `e`.
pub open spec fn number_error_name(e: NumberError) -> Seq<char> {
    match e {
        NumberError::Empty => "Empty"@,
        NumberError::InvalidDigit => "InvalidDigit"@,
        NumberError::PosOverflow => "PosOverflow"@,
        NumberError::NegOverflow => "NegOverflow"@,
    }
}

/// The name of the address error `e`.
pub open spec fn address_error_name(e: AddressError) -> Seq<char> {
    match e {
        AddressError::MissingPort => "MissingPort"@,
        AddressError::InvalidPort => "InvalidPort"@,
        AddressError::Unresolved => "Unresolved"@,
    }
}

impl Error {
    /// The error in words: its name and, in brackets, what it holds.
    pub open spec fn text(self) -> Seq<char> {
        match self {
            Error::BadAddress(e) => "BadAddress("@ + address_error_name(e) + ")"@,
            Error::BadDescriptor(e) => "BadDescriptor("@ + number_error_name(e) + ")"@,
            Error::DescriptorOutOfRange(n) => "DescriptorOutOfRange("@ + signed_numeral(n as int)
                + ")"@,
            Error::DescriptorsMissing => "DescriptorsMissing"@,
            Error::UnsupportedScheme => "UnsupportedScheme"@,
        }
    }

    /// Writes the error out in words.
    pub fn to_string(&self) -> (s: String)
        ensures
            s@ == self.text(),
    {
        match self {
            Error::BadAddress(e) => {
                let mut s = String::from_str("BadAddress(");
                s.append(
                    match e {
                        AddressError::MissingPort => "MissingPort",
                        AddressError::InvalidPort => "InvalidPort",
                        AddressError::Unresolved => "Unresolved",
                    },
                );
                s.append(")");
                s
            },
            Error::BadDescriptor(e) => {
                let mut s = String::from_str("BadDescriptor(");
                s.append(
                    match e {
                        NumberError::Empty => "Empty",
                        NumberError::InvalidDigit => "InvalidDigit",
                        NumberError::PosOverflow => "PosOverflow",
                        NumberError::NegOverflow => "NegOverflow",
                    },
                );
                s.append(")");
                s
            },
            Error::DescriptorOutOfRange(n) => {
                let mut s = String::from_str("DescriptorOutOfRange(");
                write_signed(&mut s, *n);
                s.append(")");
                s
            },
            Error::DescriptorsMissing => String::from_str("DescriptorsMissing"),
            Error::UnsupportedScheme => String::from_str("UnsupportedScheme"),
        }
    }
}

} // verus!
