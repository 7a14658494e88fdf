//! Message model and error kinds shared by the codec and the atlas.
use vstd::prelude::*;

verus! {

/// 16-bit semantic ID. Zero is reserved and never names an assigned action.
pub type SemanticID = u16;

/// The ID that is never assigned to an action.
pub const RESERVED_ID: SemanticID = 0;

/// Failures that the codec and the atlas report to their callers.
#[derive(Debug, Clone, Copy, PartialEq, Eq, Structural)]
pub enum UALError {
    /// The buffer or slice is shorter than the frame the profile requires.
    BufferTooSmall,
    /// The frame does not start with the magic bytes.
    InvalidHeader,
    /// The ID is not known to the atlas.
    InvalidID,
}

pub type UALResult<T> = Result<T, UALError>;

/// One message: what it is about, whom it addresses, and a signed payload.
#[derive(Debug, Clone, Copy, PartialEq, Eq, Structural)]
pub struct UALMessage {
    pub action_id: SemanticID,
    pub target_id: SemanticID,
    pub value: i32,
}

} // verus!
