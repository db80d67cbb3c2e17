//! Session management for the server edge.

use vstd::prelude::*;

use crate::sim::{EntityId, PlayerId};

verus! {

/// Session identifier, server-internal, allocated from 1.
pub type SessionId = u64;

/// Client session state: a weak back-reference from a connection to the
/// player and the character it controls.
#[derive(Clone, Copy, Debug, PartialEq, Eq, Structural)]
pub struct Session {
    pub id: SessionId,
    pub player_id: PlayerId,
    pub controlled_entity_id: EntityId,
    /// Last valid input tick received from this session.
    pub last_valid_tick: Option<u64>,
    /// Last input sequence number received from this session.
    pub last_input_seq: Option<u64>,
}

impl Session {
    /// Create a new session with no input history.
    pub fn new(id: SessionId, player_id: PlayerId, controlled_entity_id: EntityId) -> (r: Self)
        ensures
            r == (Session {
                id,
                player_id,
                controlled_entity_id,
                last_valid_tick: None::<u64>,
                last_input_seq: None::<u64>,
            }),
    {
        Session { id, player_id, controlled_entity_id, last_valid_tick: None, last_input_seq: None }
    }
}

} // verus!
