//! Building and reading messages as bytes.

use vstd::prelude::*;
use crate::message::{WireMessage, MessageType, AbstractMessage, decode_abstract, message_type_of};

verus! {

/// The kind of message that bytes hold, where they hold one of a known kind.
pub open spec fn kind_of(bytes: Seq<u8>) -> Option<MessageType> {
    match decode_abstract(bytes) {
        Some(c) => message_type_of(c),
        None => None,
    }
}

/// The bytes of a message.
pub fn build_proto_message<T: WireMessage>(message: &T) -> (r: Vec<u8>)
    ensures
        r@ == T::encode_spec(message@),
{
    message.encode()
}

/// The kind of message that bytes hold.
pub fn get_message_type(message: &[u8]) -> (r: MessageType)
    requires
        kind_of(message@) is Some,
    ensures
        kind_of(message@) == Some(r),
{
    match AbstractMessage::decode(message) {
        Ok(a) => match MessageType::try_from(a.message_type) {
            Some(t) => t,
            None => MessageType::Publish,
        },
        Err(_) => MessageType::Publish,
    }
}

/// The kind of message that bytes hold; `None` for bytes that are no
/// message or carry a code that names no kind.
pub fn try_get_message_type(message: &[u8]) -> (r: Option<MessageType>)
    ensures
        r == kind_of(message@),
{
    match AbstractMessage::decode(message) {
        Ok(a) => match MessageType::try_from(a.message_type) {
            Some(_) => Some(get_message_type(message)),
            None => None,
        },
        Err(_) => None,
    }
}

/// The message that bytes hold, or the message with every field at its
/// default when they hold none.
pub fn get_message<T: WireMessage>(message: &[u8]) -> (r: T)
    ensures
        match T::decode_spec(message@) {
            Some(v) => r@ == v,
            None => r@ == T::default_spec(),
        },
{
    match T::decode(message) {
        Ok(m) => m,
        Err(_) => T::default_message(),
    }
}

} // verus!
