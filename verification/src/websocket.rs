//! Kinds of websocket connection.

use vstd::prelude::*;

verus! {

/// Which side opened a websocket: a client, or a server, with its id once
/// known.
#[derive(Debug)]
pub enum WebsockType {
    Client,
    Server(Option<String>),
}

} // verus!
