use vstd::prelude::*;

verus! {

/// The ways in which an operation of this library can fail.
///
/// Every failure is handed back to the caller as a value; nothing in the
/// library aborts the process.
#[derive(Clone, Copy, Debug, PartialEq, Eq, Structural)]
pub enum Error {
    /// A socket could not be bound or connected, the destination could not be
    /// reached, or an exchange ran out of time.
    NetworkError,
    /// A response was malformed, did not belong to the request, or lacked a
    /// usable mapped-address attribute.
    ProtocolError,
    /// A descriptor buffer has the wrong length or holds invalid text.
    FormatError,
    /// A nickname exceeds the size limit.
    ValidationError,
    /// An address that is not IPv4 was handed to the encoder.
    UnsupportedAddressFamily,
}

impl Error {
    /// A short description of the failure, for logs and messages.
    pub fn message(&self) -> (text: &'static str)
        ensures
            text@ == self.spec_message(),
    {
        match self {
            Error::NetworkError => "network error",
            Error::ProtocolError => "malformed or unexpected STUN response",
            Error::FormatError => "malformed peer descriptor",
            Error::ValidationError => "nickname is too long",
            Error::UnsupportedAddressFamily => "IPv6 addresses are not supported",
        }
    }

    pub open spec fn spec_message(&self) -> Seq<char> {
        match *self {
            Error::NetworkError => "network error"@,
            Error::ProtocolError => "malformed or unexpected STUN response"@,
            Error::FormatError => "malformed peer descriptor"@,
            Error::ValidationError => "nickname is too long"@,
            Error::UnsupportedAddressFamily => "IPv6 addresses are not supported"@,
        }
    }
}

} // verus!
