//! Inbound gateway events and the invocations the router derives from them.
//!
//! An event arrives from the platform connection as a tagged union. The
//! router reads nothing but the tag; each tagged variant carries its payload
//! through to the handler collaborator untouched.

use vstd::prelude::*;

verus! {

/// The payload of a newly created message, as far as the core carries it:
/// plain identifiers the platform assigned. Handler collaborators read it;
/// the router never does.
#[derive(Clone, Copy, PartialEq, Eq, Structural, Debug)]
pub struct MessagePayload {
    pub id: u64,
    pub channel_id: u64,
    pub author_id: u64,
}

/// The payload of a reaction being added to or removed from a message.
#[derive(Clone, Copy, PartialEq, Eq, Structural, Debug)]
pub struct ReactionPayload {
    pub message_id: u64,
    pub channel_id: u64,
    pub user_id: u64,
    pub emoji: u64,
}

/// One inbound event from the gateway connection. The platform delivers a
/// closed set of kinds; everything the core does not handle arrives as
/// `Other`, carrying the platform's own kind discriminant.
#[derive(Clone, Copy, PartialEq, Eq, Structural, Debug)]
pub enum GatewayEvent {
    MessageCreated { message: MessagePayload },
    ReactionAdded { reaction: ReactionPayload },
    ReactionRemoved { reaction: ReactionPayload },
    Other { kind: u64 },
}

/// The tag of an event, separated from its payload.
#[derive(Clone, Copy, PartialEq, Eq, Structural, Debug)]
pub enum EventTag {
    MessageCreated,
    ReactionAdded,
    ReactionRemoved,
    Other,
}

/// Whether a reaction event announced an addition or a removal.
#[derive(Clone, Copy, PartialEq, Eq, Structural, Debug)]
pub enum ReactionAction {
    Added,
    Removed,
}

/// One call the router asks its caller to make: which collaborator, with
/// which payload. The connection handle and the shared context travel with
/// every invocation and are therefore not repeated here.
#[derive(Clone, Copy, PartialEq, Eq, Structural, Debug)]
pub enum HandlerInvocation {
    /// Invoke the moderation / content-detection collaborator.
    Moderation { message: MessagePayload },
    /// Invoke the reaction-management collaborator.
    Reaction { reaction: ReactionPayload, action: ReactionAction },
}

/// The tag under which an event arrived.
pub open spec fn spec_tag_of(e: GatewayEvent) -> EventTag {
    match e {
        GatewayEvent::MessageCreated { .. } => EventTag::MessageCreated,
        GatewayEvent::ReactionAdded { .. } => EventTag::ReactionAdded,
        GatewayEvent::ReactionRemoved { .. } => EventTag::ReactionRemoved,
        GatewayEvent::Other { .. } => EventTag::Other,
    }
}

/// True exactly for the tags the router dispatches to a handler.
pub open spec fn tag_is_handled(t: EventTag) -> bool {
    t is MessageCreated || t is ReactionAdded || t is ReactionRemoved
}

/// Returns the tag of an event.
pub fn tag_of(e: &GatewayEvent) -> (t: EventTag)
    ensures
        t == spec_tag_of(*e),
{
    match e {
        GatewayEvent::MessageCreated { .. } => EventTag::MessageCreated,
        GatewayEvent::ReactionAdded { .. } => EventTag::ReactionAdded,
        GatewayEvent::ReactionRemoved { .. } => EventTag::ReactionRemoved,
        GatewayEvent::Other { .. } => EventTag::Other,
    }
}

/// Returns whether an event with this tag is dispatched to a handler.
pub fn is_handled(t: EventTag) -> (r: bool)
    ensures
        r == tag_is_handled(t),
{
    match t {
        EventTag::MessageCreated => true,
        EventTag::ReactionAdded => true,
        EventTag::ReactionRemoved => true,
        EventTag::Other => false,
    }
}

} // verus!
