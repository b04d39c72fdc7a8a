//! Event model of the gateway: the set of event kinds, the wire envelope,
//! and the events that flow through user inboxes.

use vstd::prelude::*;

verus! {

/// Enum representing all possible event types that can be received from or
/// sent to the gateway.
#[derive(Debug, Clone, Copy, PartialEq, Eq, PartialOrd, Ord, Hash, Structural)]
pub enum EventType {
    Hello,
    Ready,
    Heartbeat,
    Resume,
    InvalidSession,
    ChannelCreate,
    ChannelUpdate,
    ChannelDelete,
    ChannelPinsUpdate,
    ThreadCreate,
    ThreadUpdate,
    ThreadDelete,
    ThreadListSync,
    ThreadMemberUpdate,
    ThreadMembersUpdate,
    GuildCreate,
    GuildUpdate,
    GuildDelete,
    GuildBanAdd,
    GuildBanRemove,
    GuildEmojisUpdate,
    GuildIntegrationsUpdate,
    GuildMemberAdd,
    GuildMemberRemove,
    GuildMemberUpdate,
    GuildMembersChunk,
    GuildRoleCreate,
    GuildRoleUpdate,
    GuildRoleDelete,
    IntegrationCreate,
    IntegrationUpdate,
    IntegrationDelete,
    InteractionCreate,
    InviteCreate,
    InviteDelete,
    MessageCreate,
    MessageUpdate,
    MessageDelete,
    MessageDeleteBulk,
    MessageReactionAdd,
    MessageReactionRemove,
    MessageReactionRemoveAll,
    MessageReactionRemoveEmoji,
    PresenceUpdate,
    TypingStart,
    UserUpdate,
    VoiceStateUpdate,
    VoiceServerUpdate,
    WebhooksUpdate,
    StageInstanceCreate,
    StageInstanceUpdate,
    StageInstanceDelete,
    GuildMembersRequest,
}

/// A de-/serializable data payload for transmission over the gateway.
///
/// The `d` field is carried as the raw JSON text of the event data, so that
/// the envelope logic is independent of the concrete event schema.
#[derive(Debug, Clone)]
pub struct GatewayPayload {
    /// The `op` field: the opcode of the frame.
    pub op_code: u8,
    /// The `d` field: raw JSON text of the event data.
    pub event_data: Vec<u8>,
    /// The `s` field: sequence number, present only on dispatched events.
    pub sequence_number: Option<u64>,
    /// The `t` field: event name, present only on dispatched events.
    pub event_name: Option<Vec<u8>>,
}

/// Mathematical value of a [`GatewayPayload`].
#[verifier::ext_equal]
pub struct PayloadView {
    pub op_code: u8,
    pub event_data: Seq<u8>,
    pub sequence_number: Option<u64>,
    pub event_name: Option<Seq<u8>>,
}

impl View for GatewayPayload {
    type V = PayloadView;

    open spec fn view(&self) -> PayloadView {
        PayloadView {
            op_code: self.op_code,
            event_data: self.event_data@,
            sequence_number: self.sequence_number,
            event_name: match self.event_name {
                Option::Some(ref t) => Option::Some(t@),
                Option::None => Option::None,
            },
        }
    }
}

/// One event travelling through the fan-out fabric: its kind together with
/// the envelope it will be dispatched in.
#[derive(Debug, Clone)]
pub struct Event {
    pub event_type: EventType,
    pub payload: GatewayPayload,
}

/// Mathematical value of an [`Event`].
#[verifier::ext_equal]
pub struct EventView {
    pub event_type: EventType,
    pub payload: PayloadView,
}

impl View for Event {
    type V = EventView;

    open spec fn view(&self) -> EventView {
        EventView { event_type: self.event_type, payload: self.payload@ }
    }
}

/// Byte-for-byte equality of two byte vectors.
pub fn bytes_eq(a: &Vec<u8>, b: &Vec<u8>) -> (r: bool)
    ensures
        r == (a@ == b@),
{
    if a.len() != b.len() {
        assert(a@ != b@);
        return false;
    }
    let mut i: usize = 0;
    while i < a.len()
        invariant
            0 <= i <= a.len(),
            a@.len() == b@.len(),
            forall|j: int| 0 <= j < i ==> a@[j] == b@[j],
        decreases a.len() - i,
    {
        if a[i] != b[i] {
            return false;
        }
        i += 1;
    }
    proof {
        assert(a@ =~= b@);
    }
    true
}

impl PartialEq for GatewayPayload {
    fn eq(&self, other: &GatewayPayload) -> (r: bool) {
        let op_eq = self.op_code == other.op_code;
        let d_eq = bytes_eq(&self.event_data, &other.event_data);
        let s_eq = match (self.sequence_number, other.sequence_number) {
            (Option::Some(a), Option::Some(b)) => a == b,
            (Option::None, Option::None) => true,
            _ => false,
        };
        let t_eq = match (&self.event_name, &other.event_name) {
            (Option::Some(a), Option::Some(b)) => bytes_eq(a, b),
            (Option::None, Option::None) => true,
            _ => false,
        };
        let r = op_eq && d_eq && s_eq && t_eq;
        proof {
            if r {
                assert(self@ =~= other@);
            }
        }
        r
    }
}

impl vstd::std_specs::cmp::PartialEqSpecImpl for GatewayPayload {
    open spec fn obeys_eq_spec() -> bool {
        true
    }

    open spec fn eq_spec(&self, other: &GatewayPayload) -> bool {
        self@ == other@
    }
}

impl PartialEq for Event {
    fn eq(&self, other: &Event) -> (r: bool) {
        let r = self.event_type == other.event_type && self.payload == other.payload;
        proof {
            if r {
                assert(self@ =~= other@);
            }
        }
        r
    }
}

impl vstd::std_specs::cmp::PartialEqSpecImpl for Event {
    open spec fn obeys_eq_spec() -> bool {
        true
    }

    open spec fn eq_spec(&self, other: &Event) -> bool {
        self@ == other@
    }
}

/// An exact copy of a payload. Written out so that verified callers know the
/// copy has the same value as the original.
pub fn copy_payload(p: &GatewayPayload) -> (r: GatewayPayload)
    ensures
        r@ == p@,
{
    GatewayPayload {
        op_code: p.op_code,
        event_data: copy_bytes(&p.event_data),
        sequence_number: p.sequence_number,
        event_name: match &p.event_name {
            Option::Some(t) => Option::Some(copy_bytes(t)),
            Option::None => Option::None,
        },
    }
}

/// An exact copy of an event, with the same value.
pub fn copy_event(e: &Event) -> (r: Event)
    ensures
        r@ == e@,
{
    Event { event_type: e.event_type, payload: copy_payload(&e.payload) }
}

/// An exact copy of a byte vector.
pub fn copy_bytes(a: &Vec<u8>) -> (r: Vec<u8>)
    ensures
        r@ == a@,
{
    let mut out: Vec<u8> = Vec::new();
    let mut i: usize = 0;
    while i < a.len()
        invariant
            0 <= i <= a.len(),
            out@ == a@.subrange(0, i as int),
        decreases a.len() - i,
    {
        out.push(a[i]);
        proof {
            assert(out@ =~= a@.subrange(0, (i + 1) as int));
        }
        i += 1;
    }
    proof {
        assert(a@.subrange(0, a@.len() as int) =~= a@);
    }
    out
}

} // verus!
