//! Routing of raw messages to handlers by their kind.

use vstd::prelude::*;
use crate::message::{MessageType, message_type_code, AbstractMessage, WireMessage, DecodeError, decode_abstract};

verus! {

broadcast use vstd::std_specs::hash::group_hash_axioms;

/// A handler for each kind of message, by its code.
pub struct Router<H> {
    handlers: std::collections::HashMap<i32, H>,
}

impl<H> View for Router<H> {
    type V = Map<i32, H>;

    closed spec fn view(&self) -> Map<i32, H> {
        self.handlers@
    }
}

impl<H> Router<H> {
    /// A router with no handler.
    pub fn new() -> (r: Self)
        ensures
            r@ == Map::<i32, H>::empty(),
    {
        Router { handlers: std::collections::HashMap::new() }
    }

    /// Sets the handler of a kind of message.
    pub fn register_factory(&mut self, msg_type: MessageType, factory: H)
        ensures
            final(self)@ == old(self)@.insert(message_type_code(msg_type), factory),
    {
        self.handlers.insert(msg_type.code(), factory);
    }

    /// The handler for raw bytes: an error for bytes that are no message,
    /// `None` for a kind without a handler.
    pub fn route(&self, raw: &[u8]) -> (r: Result<Option<&H>, DecodeError>)
        ensures
            match decode_abstract(raw@) {
                None => r is Err,
                Some(c) => match r {
                    Ok(Some(h)) => self@.contains_key(c) && *h == self@[c],
                    Ok(None) => !self@.contains_key(c),
                    Err(_) => false,
                },
            },
    {
        match AbstractMessage::decode(raw) {
            Ok(a) => Ok(self.handlers.get(&a.message_type)),
            Err(e) => Err(e),
        }
    }
}

} // verus!
