//! The identity of a connected client.

use vstd::prelude::*;
use crate::ids::{fresh_id, is_random_id};

verus! {

/// A client as it is when its connection opens.
pub struct Client {
    pub id: u128,
    pub handshake_completed: bool,
}

impl Client {
    /// A client under a fresh random id that has not completed the handshake.
    pub fn new() -> (client: Client)
        ensures
            !client.handshake_completed,
            is_random_id(client.id),
    {
        Client { id: fresh_id(), handshake_completed: false }
    }
}

} // verus!
