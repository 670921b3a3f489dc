//! The kinds of failure that the core surfaces.
use vstd::prelude::*;

verus! {

/// A failure of the protocol, security or persistence layers.
#[derive(Debug, Clone, Copy, PartialEq, Eq, Structural)]
pub enum RabbitError {
    /// The start line is absent or its verb is empty.
    MalformedFrame,
    /// A handshake named a scheme other than the supported one.
    UnsupportedScheme,
    /// A frame that needs a session carries no valid session token.
    Unauthorised,
    /// A required header is absent from a control frame.
    MissingField,
    /// The subject lacks the capability that the operation needs.
    Forbidden,
    /// A peer presented a certificate other than the pinned one.
    FingerprintMismatch,
    /// A signature did not verify.
    SignatureInvalid,
    /// A manifest's encoding could not be read.
    ManifestMalformed,
    /// A session token is not known.
    SessionUnknown,
    /// A frame was sent the greatest number of times without acknowledgement.
    RetryExhausted,
    /// Stored state could not be written or read.
    PersistenceIO,
}

/// The start line of the status frame that answers a failure.
pub open spec fn status_of(e: RabbitError) -> Seq<char> {
    match e {
        RabbitError::MalformedFrame => "400 MalformedFrame"@,
        RabbitError::UnsupportedScheme => "400 UnsupportedScheme"@,
        RabbitError::Unauthorised => "401 Unauthorised"@,
        RabbitError::MissingField => "400 MissingField"@,
        RabbitError::Forbidden => "403 Forbidden"@,
        RabbitError::FingerprintMismatch => "403 FingerprintMismatch"@,
        RabbitError::SignatureInvalid => "403 SignatureInvalid"@,
        RabbitError::ManifestMalformed => "400 ManifestMalformed"@,
        RabbitError::SessionUnknown => "401 SessionUnknown"@,
        RabbitError::RetryExhausted => "504 RetryExhausted"@,
        RabbitError::PersistenceIO => "500 PersistenceIO"@,
    }
}

impl RabbitError {
    /// The start line of the status frame that answers this failure: a status code and
    /// the failure's name.
    pub fn status_line(&self) -> (r: &'static str)
        ensures
            r@ == status_of(*self),
    {
        match self {
            RabbitError::MalformedFrame => "400 MalformedFrame",
            RabbitError::UnsupportedScheme => "400 UnsupportedScheme",
            RabbitError::Unauthorised => "401 Unauthorised",
            RabbitError::MissingField => "400 MissingField",
            RabbitError::Forbidden => "403 Forbidden",
            RabbitError::FingerprintMismatch => "403 FingerprintMismatch",
            RabbitError::SignatureInvalid => "403 SignatureInvalid",
            RabbitError::ManifestMalformed => "400 ManifestMalformed",
            RabbitError::SessionUnknown => "401 SessionUnknown",
            RabbitError::RetryExhausted => "504 RetryExhausted",
            RabbitError::PersistenceIO => "500 PersistenceIO",
        }
    }
}

} // verus!
