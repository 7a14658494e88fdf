//! Universal Agent Language for constrained devices.
//!
//! A fixed-layout, allocation-free codec for short semantic command and status
//! messages, a table that resolves semantic IDs to their meaning, and a small
//! agent facade that binds an identity to the codec.
use vstd::prelude::*;

pub mod atlas;
pub mod codec;
pub mod types;

verus! {

use crate::codec::{
    decode, decode_minimal, decode_minimal_spec, decode_spec, extended_frame, minimal_frame,
    write_frame, Encoder,
};
use crate::types::{SemanticID, UALMessage, UALResult};

/// An embedded agent: an identity borrowed for the agent's lifetime, bound to one codec.
pub struct MicroAgent<'a> {
    id: &'a str,
    encoder: Encoder,
}

impl<'a> MicroAgent<'a> {
    /// The identity the agent was made with.
    pub closed spec fn identity(&self) -> &'a str {
        self.id
    }

    pub fn new(id: &'a str) -> (r: Self)
        ensures
            r.identity() == id,
    {
        MicroAgent { id, encoder: Encoder::new() }
    }

    /// The agent's identity.
    pub fn id(&self) -> (r: &'a str)
        ensures
            r == self.identity(),
    {
        self.id
    }

    /// Encodes a message into a fixed-size buffer as a minimal frame.
    pub fn encode_into(&self, msg: &UALMessage, buffer: &mut [u8]) -> (r: UALResult<usize>)
        ensures
            (r, final(buffer)@) == write_frame(minimal_frame(msg.action_id), old(buffer)@),
    {
        self.encoder.encode(msg, buffer)
    }

    /// Encodes a message into a fixed-size buffer as an extended frame.
    pub fn encode_extended_into(&self, msg: &UALMessage, buffer: &mut [u8]) -> (r: UALResult<
        usize,
    >)
        ensures
            (r, final(buffer)@) == write_frame(extended_frame(*msg), old(buffer)@),
    {
        self.encoder.encode_extended(msg, buffer)
    }

    /// Decodes an extended frame received from the transport.
    pub fn decode_from(&self, bytes: &[u8]) -> (r: UALResult<UALMessage>)
        ensures
            r == decode_spec(bytes@),
    {
        decode(bytes)
    }

    /// Decodes a minimal frame received from the transport into its action ID.
    pub fn decode_action_from(&self, bytes: &[u8]) -> (r: UALResult<SemanticID>)
        ensures
            r == decode_minimal_spec(bytes@),
    {
        decode_minimal(bytes)
    }
}

} // verus!
