//! Failures told in words.
use vstd::prelude::*;
use crate::adnl_node::AdnlNodeError;
use crate::overlay_node::OverlayNodeError;
use crate::rldp_node::encoder::EncoderError;
use crate::rldp_node::transfers::RldpError;
use crate::utils::handshake::HandshakeError;
use crate::utils::tl::TlError;
use crate::utils::BadPublicKeyData;

verus! {

/// A failure that has a description.
pub trait Failure {
    /// The description of the failure.
    spec fn spec_message(&self) -> Seq<char>;

    /// The description of the failure.
    fn message(&self) -> (text: String)
        ensures
            text@ == self.spec_message(),
    ;
}

/// A result whose failure can be told in words.
pub trait NoFailure: Sized {
    type Output;

    /// The result with its failure, if any, replaced by its description.
    spec fn spec_convert(self) -> Result<Self::Output, Seq<char>>;

    /// Replaces the failure, if any, by its description.
    fn convert(self) -> (converted: Result<Self::Output, String>)
        ensures
            match converted {
                Ok(value) => self.spec_convert() == Ok::<Self::Output, Seq<char>>(value),
                Err(text) => self.spec_convert() == Err::<Self::Output, Seq<char>>(text@),
            },
    ;
}

impl<T, E: Failure> NoFailure for Result<T, E> {
    type Output = T;

    open spec fn spec_convert(self) -> Result<T, Seq<char>> {
        match self {
            Ok(value) => Ok(value),
            Err(error) => Err(error.spec_message()),
        }
    }

    fn convert(self) -> (converted: Result<T, String>) {
        match self {
            Ok(value) => Ok(value),
            Err(error) => Err(error.message()),
        }
    }
}

impl Failure for OverlayNodeError {
    open spec fn spec_message(&self) -> Seq<char> {
        match self {
            OverlayNodeError::UnsupportedOverlayBroadcastMessage => "Unsupported overlay broadcast message"@,
            OverlayNodeError::UnknownOverlay => "Unknown overlay"@,
            OverlayNodeError::DeletingPublicOverlay => "Cannot delete public overlay"@,
            OverlayNodeError::NoConsumerFound => "No consumer for message in overlay"@,
            OverlayNodeError::UnsupportedQuery => "Unsupported query"@,
            OverlayNodeError::UnknownKeyTag => "Unknown key tag"@,
            OverlayNodeError::UnknownLocalKey => "Unknown local key"@,
        }
    }

    fn message(&self) -> (text: String) {
        match self {
            OverlayNodeError::UnsupportedOverlayBroadcastMessage => "Unsupported overlay broadcast message".to_owned(),
            OverlayNodeError::UnknownOverlay => "Unknown overlay".to_owned(),
            OverlayNodeError::DeletingPublicOverlay => "Cannot delete public overlay".to_owned(),
            OverlayNodeError::NoConsumerFound => "No consumer for message in overlay".to_owned(),
            OverlayNodeError::UnsupportedQuery => "Unsupported query".to_owned(),
            OverlayNodeError::UnknownKeyTag => "Unknown key tag".to_owned(),
            OverlayNodeError::UnknownLocalKey => "Unknown local key".to_owned(),
        }
    }
}

impl Failure for AdnlNodeError {
    open spec fn spec_message(&self) -> Seq<char> {
        match self {
            AdnlNodeError::UnknownLocalKey => "Unknown local key"@,
            AdnlNodeError::UnknownKeyTag => "Unknown key tag"@,
            AdnlNodeError::DuplicatedKeyTag => "Duplicated key tag"@,
            AdnlNodeError::UnknownPeer => "Unknown peer"@,
            AdnlNodeError::BadPeerKey => "Bad peer public key"@,
        }
    }

    fn message(&self) -> (text: String) {
        match self {
            AdnlNodeError::UnknownLocalKey => "Unknown local key".to_owned(),
            AdnlNodeError::UnknownKeyTag => "Unknown key tag".to_owned(),
            AdnlNodeError::DuplicatedKeyTag => "Duplicated key tag".to_owned(),
            AdnlNodeError::UnknownPeer => "Unknown peer".to_owned(),
            AdnlNodeError::BadPeerKey => "Bad peer public key".to_owned(),
        }
    }
}

impl Failure for EncoderError {
    open spec fn spec_message(&self) -> Seq<char> {
        "Failed to encode repair packet"@
    }

    fn message(&self) -> (text: String) {
        "Failed to encode repair packet".to_owned()
    }
}

impl Failure for RldpError {
    open spec fn spec_message(&self) -> Seq<char> {
        match self {
            RldpError::FailedToEncode => "Failed to encode repair packet"@,
            RldpError::TransferTimedOut => "Transfer timed out"@,
            RldpError::ParametersRejected => "Transfer parameters rejected"@,
            RldpError::DecodeFailed => "Failed to decode transfer"@,
        }
    }

    fn message(&self) -> (text: String) {
        match self {
            RldpError::FailedToEncode => "Failed to encode repair packet".to_owned(),
            RldpError::TransferTimedOut => "Transfer timed out".to_owned(),
            RldpError::ParametersRejected => "Transfer parameters rejected".to_owned(),
            RldpError::DecodeFailed => "Failed to decode transfer".to_owned(),
        }
    }
}

impl Failure for BadPublicKeyData {
    open spec fn spec_message(&self) -> Seq<char> {
        "Bad public key data"@
    }

    fn message(&self) -> (text: String) {
        "Bad public key data".to_owned()
    }
}

impl Failure for HandshakeError {
    open spec fn spec_message(&self) -> Seq<char> {
        match self {
            HandshakeError::TooShort => "Packet is too short"@,
            HandshakeError::UnknownRecipient => "Packet for an unknown recipient"@,
            HandshakeError::BadPublicKeyData => "Bad public key data"@,
            HandshakeError::BadChecksum => "Bad packet checksum"@,
        }
    }

    fn message(&self) -> (text: String) {
        match self {
            HandshakeError::TooShort => "Packet is too short".to_owned(),
            HandshakeError::UnknownRecipient => "Packet for an unknown recipient".to_owned(),
            HandshakeError::BadPublicKeyData => "Bad public key data".to_owned(),
            HandshakeError::BadChecksum => "Bad packet checksum".to_owned(),
        }
    }
}

impl Failure for TlError {
    open spec fn spec_message(&self) -> Seq<char> {
        match self {
            TlError::UnexpectedEof => "Unexpected packet EOF"@,
            TlError::UnknownConstructor => "Unknown constructor"@,
            TlError::InvalidData => "Invalid data"@,
            TlError::TooLong => "Byte string is too long"@,
        }
    }

    fn message(&self) -> (text: String) {
        match self {
            TlError::UnexpectedEof => "Unexpected packet EOF".to_owned(),
            TlError::UnknownConstructor => "Unknown constructor".to_owned(),
            TlError::InvalidData => "Invalid data".to_owned(),
            TlError::TooLong => "Byte string is too long".to_owned(),
        }
    }
}

} // verus!
