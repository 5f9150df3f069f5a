use vstd::prelude::*;
use crate::ids::ActorAddress;

verus! {

/// How an inbound wire envelope is delivered to its local actor.
#[derive(Debug, Clone, Copy, PartialEq, Eq, Structural)]
pub enum InboundKind {
    /// Fire-and-forget: send the message, reply nothing.
    Cast,
    /// Request: ask the actor and reply with the encoded result.
    Call,
}

/// Why an inbound envelope was refused.
#[derive(Debug, Clone, PartialEq, Eq)]
pub enum InboundError {
    /// The envelope is addressed to another actor than this dispatcher's.
    UnexpectedTarget(ActorAddress),
}

/// Decide how to deliver an envelope addressed to `to` with correlation id
/// `correlation_id`, at the dispatcher of actor `address`: envelopes for
/// another actor are refused; correlation id 0 marks a cast, any other a
/// call.
pub fn classify_inbound(address: &ActorAddress, to: &ActorAddress, correlation_id: u64) -> (r: Result<InboundKind, InboundError>)
    ensures
        to@ != address@ ==> r == Err::<InboundKind, InboundError>(InboundError::UnexpectedTarget(*to)),
        to@ == address@ && correlation_id == 0 ==> r == Ok::<InboundKind, InboundError>(InboundKind::Cast),
        to@ == address@ && correlation_id != 0 ==> r == Ok::<InboundKind, InboundError>(InboundKind::Call),
{
    if !to.same_as(address) {
        return Err(InboundError::UnexpectedTarget(to.duplicate()));
    }
    if correlation_id == 0 {
        Ok(InboundKind::Cast)
    } else {
        Ok(InboundKind::Call)
    }
}

} // verus!
