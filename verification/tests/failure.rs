use tiny_adnl::adnl_node::AdnlNodeError;
use tiny_adnl::overlay_node::OverlayNodeError;
use tiny_adnl::rldp_node::encoder::EncoderError;
use tiny_adnl::rldp_node::transfers::RldpError;
use tiny_adnl::utils::handshake::HandshakeError;
use tiny_adnl::utils::tl::TlError;
use tiny_adnl::utils::{BadPublicKeyData, Failure, NoFailure};

#[test]
fn failures_are_told_in_words() {
    assert_eq!(
        OverlayNodeError::UnsupportedOverlayBroadcastMessage.message(),
        "Unsupported overlay broadcast message"
    );
    assert_eq!(OverlayNodeError::UnknownOverlay.message(), "Unknown overlay");
    assert_eq!(OverlayNodeError::DeletingPublicOverlay.message(), "Cannot delete public overlay");
    assert_eq!(OverlayNodeError::NoConsumerFound.message(), "No consumer for message in overlay");
    assert_eq!(OverlayNodeError::UnsupportedQuery.message(), "Unsupported query");
    assert_eq!(OverlayNodeError::UnknownKeyTag.message(), "Unknown key tag");
    assert_eq!(OverlayNodeError::UnknownLocalKey.message(), "Unknown local key");
    assert_eq!(EncoderError::FailedToEncode.message(), "Failed to encode repair packet");
    assert_eq!(BadPublicKeyData.message(), "Bad public key data");
    assert_eq!(AdnlNodeError::DuplicatedKeyTag.message(), "Duplicated key tag");
    assert_eq!(AdnlNodeError::UnknownPeer.message(), "Unknown peer");
    assert_eq!(AdnlNodeError::BadPeerKey.message(), "Bad peer public key");
    assert_eq!(RldpError::TransferTimedOut.message(), "Transfer timed out");
    assert_eq!(RldpError::ParametersRejected.message(), "Transfer parameters rejected");
    assert_eq!(RldpError::DecodeFailed.message(), "Failed to decode transfer");
    assert_eq!(RldpError::FailedToEncode.message(), "Failed to encode repair packet");
    assert_eq!(HandshakeError::TooShort.message(), "Packet is too short");
    assert_eq!(HandshakeError::BadChecksum.message(), "Bad packet checksum");
    assert_eq!(HandshakeError::UnknownRecipient.message(), "Packet for an unknown recipient");
    assert_eq!(HandshakeError::BadPublicKeyData.message(), "Bad public key data");
    assert_eq!(TlError::UnexpectedEof.message(), "Unexpected packet EOF");
    assert_eq!(TlError::UnknownConstructor.message(), "Unknown constructor");
    assert_eq!(TlError::InvalidData.message(), "Invalid data");
    assert_eq!(TlError::TooLong.message(), "Byte string is too long");
}

#[test]
fn convert_keeps_success_and_describes_failure() {
    let fine: Result<u32, TlError> = Ok(7);
    assert_eq!(fine.convert(), Ok(7));
    let failed: Result<u32, TlError> = Err(TlError::InvalidData);
    assert_eq!(failed.convert(), Err("Invalid data".to_string()));
    let refused: Result<bool, OverlayNodeError> = Err(OverlayNodeError::DeletingPublicOverlay);
    assert_eq!(refused.convert(), Err("Cannot delete public overlay".to_string()));
}
