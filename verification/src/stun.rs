use vstd::prelude::*;
use webrtc::stun::agent::TransactionId;
use webrtc::stun::message::{Message, Setter, BINDING_REQUEST};

verus! {

/// Width of a STUN transaction identifier, in bytes.
pub const TRANSACTION_ID_LEN: usize = 12;

/// The bytes of a STUN binding request without attributes: the message type
/// `0x0001`, the length zero, the magic cookie `0x2112A442`, and the
/// transaction identifier.
pub open spec fn binding_request(transaction_id: Seq<u8>) -> Seq<u8>
    recommends
        transaction_id.len() == TRANSACTION_ID_LEN,
{
    seq![0x00u8, 0x01u8, 0x00u8, 0x00u8, 0x21u8, 0x12u8, 0xA4u8, 0x42u8] + transaction_id
}

/// `TransactionId::new` of the outside STUN implementation: twelve bytes from
/// its random number generator. Nothing is claimed of them.
#[verifier::external_body]
pub(crate) fn random_transaction_id() -> [u8; TRANSACTION_ID_LEN] {
    TransactionId::new().0
}

/// `Message::build` of the outside STUN implementation, with the transaction
/// identifier and the binding request type as setters. The message that it
/// builds has no attributes, so its bytes are the twenty bytes of the header.
#[verifier::external_body]
pub(crate) fn build_binding_request(transaction_id: &[u8; TRANSACTION_ID_LEN]) -> (request: Vec<u8>)
    ensures
        request@ == binding_request(transaction_id@),
{
    let mut message = Message::new();
    let setters: [Box<dyn Setter>; 2] = [
        Box::new(TransactionId(*transaction_id)),
        Box::new(BINDING_REQUEST),
    ];
    let _ = message.build(&setters);
    message.raw
}

} // verus!
