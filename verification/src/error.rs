//! What can go wrong while an address is read or written.

use crate::code::Code;
use vstd::prelude::*;

verus! {

/// The failures of address handling.
#[derive(Debug, Clone, Copy, PartialEq, Eq, Structural)]
pub enum Error {
    /// Text referred to a prefix that the registry has no codec for.
    UnregisteredPrefix,
    /// Bytes or a typed value referred to a code that the registry has no
    /// codec for.
    UnregisteredCode(Code),
    /// A codec rejected the value of the protocol with this code.
    InvalidProto(Code),
    /// A registry was asked to hold a prefix twice.
    DuplicatePrefix,
    /// A registry was asked to hold this code twice.
    DuplicateCode(Code),
    /// The bytes do not start with a well-formed variable-length integer.
    InvalidVarint,
    /// The text does not follow the grammar of an address.
    InvalidText,
    /// The text that was produced could not be handed on.
    Format,
}

impl Error {
    /// A short description of the failure.
    pub fn message(&self) -> (m: &'static str)
        ensures
            m@ == match *self {
                Error::UnregisteredPrefix => "unregistered prefix"@,
                Error::UnregisteredCode(_) => "unregistered code"@,
                Error::InvalidProto(_) => "invalid protocol value"@,
                Error::DuplicatePrefix => "prefix registered twice"@,
                Error::DuplicateCode(_) => "code registered twice"@,
                Error::InvalidVarint => "invalid variable-length integer"@,
                Error::InvalidText => "invalid address text"@,
                Error::Format => "formatting failure"@,
            },
    {
        match self {
            Error::UnregisteredPrefix => "unregistered prefix",
            Error::UnregisteredCode(_) => "unregistered code",
            Error::InvalidProto(_) => "invalid protocol value",
            Error::DuplicatePrefix => "prefix registered twice",
            Error::DuplicateCode(_) => "code registered twice",
            Error::InvalidVarint => "invalid variable-length integer",
            Error::InvalidText => "invalid address text",
            Error::Format => "formatting failure",
        }
    }
}

} // verus!
