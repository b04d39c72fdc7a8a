//! The per-connection protocol state machine: which frames a session
//! accepts in each state, what the server sends back, when the kill switch
//! fires, and how sequence numbers are stamped onto dispatched events.

use vstd::prelude::*;

use crate::codec::copy_range;
use crate::codec::dec_u64;
use crate::codec::decode_payload;
use crate::codec::name_end;
use crate::codec::parse_u64;
use crate::codec::scan_from;
use crate::codec::scan_init;
use crate::codec::scan_name;
use crate::codec::scan_value;
use crate::codec::skip_ws;
use crate::codec::skip_ws_at;
use crate::codec::span_eq;
use crate::codec::spec_decode;
use crate::codec::spec_parse_u64;
use crate::codec::trim_ws_at;
use crate::codec::trim_ws_end;
use crate::error::Error;
use crate::events::Event;
use crate::events::GatewayPayload;
use crate::events::PayloadView;
use crate::heartbeat::handle_heartbeat;
use crate::heartbeat::seq_diff;
use crate::heartbeat::HeartbeatOutcome;
use crate::heartbeat::HEARTBEAT_INTERVAL_MS;
use crate::resume::ResumableClientsStore;

verus! {

pub const OP_DISPATCH: u8 = 0;

pub const OP_HEARTBEAT: u8 = 1;

pub const OP_IDENTIFY: u8 = 2;

pub const OP_PRESENCE_UPDATE: u8 = 3;

pub const OP_VOICE_STATE_UPDATE: u8 = 4;

pub const OP_RESUME: u8 = 6;

pub const OP_RECONNECT: u8 = 7;

pub const OP_REQUEST_GUILD_MEMBERS: u8 = 8;

pub const OP_INVALID_SESSION: u8 = 9;

pub const OP_HELLO: u8 = 10;

pub const OP_HEARTBEAT_ACK: u8 = 11;

/// Where a session stands in its life cycle.
#[derive(Debug, Clone, Copy, PartialEq, Eq, Structural)]
pub enum SessionState {
    /// Hello has been sent; only Identify or Resume are accepted.
    Unauthenticated,
    /// Normal operation.
    Ready,
    /// The kill switch has fired or a fatal error was observed.
    Closing,
}

/// A client-to-server frame, reduced to what the state machine inspects.
/// Credentials travel out of band, so Identify carries nothing here.
#[derive(Debug, Clone, PartialEq, Eq)]
pub enum ClientFrame {
    Identify,
    Resume { session_id: Vec<u8>, seq: u64 },
    Heartbeat { d: Option<u64> },
    Other { op: u8 },
}

/// One thing the surrounding process must do in reaction to a frame.
#[derive(Debug, Clone, Copy, PartialEq, Eq, Structural)]
pub enum ServerAction {
    /// Write one HeartbeatAck frame.
    SendAck,
    /// Write one Reconnect frame.
    SendReconnect,
    /// Write one InvalidSession frame with `d == false`.
    SendInvalidSession,
    /// Dispatch a Ready event stamped with the contained sequence number.
    SendReady { s: u64 },
    /// Replay the events recorded after the contained sequence number from
    /// the user's buffers, then dispatch Resumed; see [`replay_missed`].
    ReplayFrom { from: u64 },
    /// Fire the kill switch once.
    Kill,
}

/// One session's protocol state: where it stands, and the last sequence
/// number delivered to its client.
pub struct Session {
    pub state: SessionState,
    pub last_sequence: u64,
}

impl Session {
    /// A fresh session: Hello sent, nothing delivered yet.
    pub fn new() -> (r: Session)
        ensures
            r.state == SessionState::Unauthenticated,
            r.last_sequence == 0,
    {
        Session { state: SessionState::Unauthenticated, last_sequence: 0 }
    }
}

/// An opcode a Ready session accepts without an outbound reaction here:
/// presence updates, voice-state updates, and guild-member requests.
pub open spec fn ready_side_op(op: u8) -> bool {
    op == OP_PRESENCE_UPDATE || op == OP_VOICE_STATE_UPDATE || op == OP_REQUEST_GUILD_MEMBERS
}

/// The session id a Resume frame carries.
pub open spec fn resume_sid(f: ClientFrame) -> Seq<u8> {
    match f {
        ClientFrame::Resume { session_id, .. } => session_id@,
        _ => Seq::empty(),
    }
}

/// The sequence number a Resume frame carries.
pub open spec fn resume_seq(f: ClientFrame) -> u64 {
    match f {
        ClientFrame::Resume { seq, .. } => seq,
        _ => 0,
    }
}

/// The optional sequence number a Heartbeat frame carries.
pub open spec fn heartbeat_d(f: ClientFrame) -> Option<u64> {
    match f {
        ClientFrame::Heartbeat { d } => d,
        _ => Option::None,
    }
}

/// The opcode an unhandled frame carries.
pub open spec fn other_op(f: ClientFrame) -> u8 {
    match f {
        ClientFrame::Other { op } => op,
        _ => 0,
    }
}

/// The resume store holds this frame's token at exactly its claimed
/// sequence number.
pub open spec fn resume_hit(store: ResumableClientsStore, f: ClientFrame) -> bool {
    store.entries@.contains_key(resume_sid(f))
        && store.entries@[resume_sid(f)].disconnected_at_sequence == resume_seq(f)
}

/// Drives the state machine by one client frame.
///
/// Unauthenticated sessions accept Identify — answered with a Ready
/// dispatch stamped `1` — and Resume, which consults the store: a token
/// recorded at exactly the claimed sequence number resumes, anything else
/// is answered with a non-resumable InvalidSession and a kill. Every other
/// frame before authentication, and a second Identify or a Resume after
/// it, is a protocol violation: InvalidSession and kill. Ready sessions
/// have their heartbeats reconciled: a drift of at most 2 earns exactly
/// one ack, a drift of 3 or more a Reconnect followed by the kill switch.
pub fn session_step(
    s: &mut Session,
    frame: &ClientFrame,
    store: &ResumableClientsStore,
) -> (r: Vec<ServerAction>)
    requires
        old(s).last_sequence < u64::MAX,
        store.wf(),
    ensures
        old(s).state == SessionState::Unauthenticated && frame is Identify ==> final(s).state
            == SessionState::Ready && final(s).last_sequence == old(s).last_sequence + 1 && r@
            =~= seq![ServerAction::SendReady { s: (old(s).last_sequence + 1) as u64 }],
        old(s).state == SessionState::Unauthenticated && frame is Resume && resume_hit(
            *store,
            *frame,
        ) ==> final(s).state == SessionState::Ready && final(s).last_sequence == resume_seq(*frame)
            && r@ =~= seq![ServerAction::ReplayFrom { from: resume_seq(*frame) }],
        old(s).state == SessionState::Unauthenticated && frame is Resume && !resume_hit(
            *store,
            *frame,
        ) ==> final(s).state == SessionState::Closing && final(s).last_sequence == old(
            s,
        ).last_sequence && r@ =~= seq![ServerAction::SendInvalidSession, ServerAction::Kill],
        old(s).state == SessionState::Unauthenticated && (frame is Heartbeat || frame is Other)
            ==> final(s).state == SessionState::Closing && final(s).last_sequence == old(
            s,
        ).last_sequence && r@ =~= seq![ServerAction::SendInvalidSession, ServerAction::Kill],
        old(s).state == SessionState::Ready && frame is Heartbeat && (heartbeat_d(*frame) is None
            || seq_diff(old(s).last_sequence, heartbeat_d(*frame)->Some_0) <= 2) ==> *final(s)
            == *old(s) && r@ =~= seq![ServerAction::SendAck],
        old(s).state == SessionState::Ready && frame is Heartbeat && heartbeat_d(*frame) is Some
            && seq_diff(old(s).last_sequence, heartbeat_d(*frame)->Some_0) >= 3 ==> final(s).state
            == SessionState::Closing && final(s).last_sequence == old(s).last_sequence && r@ =~= seq![
            ServerAction::SendReconnect,
            ServerAction::Kill,
        ],
        old(s).state == SessionState::Ready && (frame is Identify || frame is Resume) ==> final(s).state == SessionState::Closing && final(s).last_sequence == old(s).last_sequence && r@ =~= seq![
            ServerAction::SendInvalidSession,
            ServerAction::Kill,
        ],
        old(s).state == SessionState::Ready && frame is Other && ready_side_op(other_op(*frame))
            ==> *final(s) == *old(s) && r@ =~= Seq::<ServerAction>::empty(),
        old(s).state == SessionState::Ready && frame is Other && !ready_side_op(other_op(*frame))
            ==> final(s).state == SessionState::Closing && final(s).last_sequence == old(
            s,
        ).last_sequence && r@ =~= seq![ServerAction::SendInvalidSession, ServerAction::Kill],
        old(s).state == SessionState::Closing ==> *final(s) == *old(s) && r@ =~= Seq::<
            ServerAction,
        >::empty(),
{
    let mut actions: Vec<ServerAction> = Vec::new();
    match s.state {
        SessionState::Unauthenticated => {
            match frame {
                ClientFrame::Identify => {
                    s.last_sequence = s.last_sequence + 1;
                    s.state = SessionState::Ready;
                    actions.push(ServerAction::SendReady { s: s.last_sequence });
                },
                ClientFrame::Resume { session_id, seq } => {
                    let hit = match store.lookup(session_id) {
                        Option::Some(stored) => stored == *seq,
                        Option::None => false,
                    };
                    if hit {
                        s.last_sequence = *seq;
                        s.state = SessionState::Ready;
                        actions.push(ServerAction::ReplayFrom { from: *seq });
                    } else {
                        s.state = SessionState::Closing;
                        actions.push(ServerAction::SendInvalidSession);
                        actions.push(ServerAction::Kill);
                    }
                },
                _ => {
                    s.state = SessionState::Closing;
                    actions.push(ServerAction::SendInvalidSession);
                    actions.push(ServerAction::Kill);
                },
            }
        },
        SessionState::Ready => {
            match frame {
                ClientFrame::Heartbeat { d } => {
                    match handle_heartbeat(s.last_sequence, *d) {
                        HeartbeatOutcome::Ack => {
                            actions.push(ServerAction::SendAck);
                        },
                        HeartbeatOutcome::ReconnectAndKill => {
                            s.state = SessionState::Closing;
                            actions.push(ServerAction::SendReconnect);
                            actions.push(ServerAction::Kill);
                        },
                    }
                },
                ClientFrame::Identify => {
                    s.state = SessionState::Closing;
                    actions.push(ServerAction::SendInvalidSession);
                    actions.push(ServerAction::Kill);
                },
                ClientFrame::Resume { .. } => {
                    s.state = SessionState::Closing;
                    actions.push(ServerAction::SendInvalidSession);
                    actions.push(ServerAction::Kill);
                },
                ClientFrame::Other { op } => {
                    if *op == OP_PRESENCE_UPDATE || *op == OP_VOICE_STATE_UPDATE || *op
                        == OP_REQUEST_GUILD_MEMBERS {
                        // accepted; handled by the event plumbing, nothing to
                        // send from here
                    } else {
                        s.state = SessionState::Closing;
                        actions.push(ServerAction::SendInvalidSession);
                        actions.push(ServerAction::Kill);
                    }
                },
            }
        },
        SessionState::Closing => {},
    }
    actions
}

/// Stamps one outbound event: the shared sequence number is incremented by
/// exactly one and written into the dispatch envelope's `s` slot.
pub fn dispatch_event(s: &mut Session, ev: &Event) -> (r: GatewayPayload)
    requires
        old(s).last_sequence < u64::MAX,
    ensures
        final(s).state == old(s).state,
        final(s).last_sequence == old(s).last_sequence + 1,
        r@.op_code == OP_DISPATCH,
        r@.sequence_number == Option::Some((old(s).last_sequence + 1) as u64),
        r@.event_data == ev.payload@.event_data,
        r@.event_name == ev.payload@.event_name,
{
    s.last_sequence = s.last_sequence + 1;
    let p = crate::events::copy_payload(&ev.payload);
    GatewayPayload {
        op_code: OP_DISPATCH,
        event_data: p.event_data,
        sequence_number: Option::Some(s.last_sequence),
        event_name: p.event_name,
    }
}

/// Stamps a batch of outbound events in the order they left the inbox:
/// sequence numbers strictly increase by exactly one per dispatched event.
pub fn dispatch_all(s: &mut Session, events: &Vec<Event>) -> (r: Vec<GatewayPayload>)
    requires
        old(s).last_sequence + events@.len() <= u64::MAX,
    ensures
        final(s).state == old(s).state,
        final(s).last_sequence == old(s).last_sequence + events@.len(),
        r@.len() == events@.len(),
        forall|i: int|
            0 <= i < events@.len() ==> (#[trigger] r@[i])@.sequence_number == Option::Some(
                (old(s).last_sequence + 1 + i) as u64,
            ) && r@[i]@.op_code == OP_DISPATCH && r@[i]@.event_data
                == events@[i].payload@.event_data && r@[i]@.event_name
                == events@[i].payload@.event_name,
{
    let mut out: Vec<GatewayPayload> = Vec::new();
    let mut i: usize = 0;
    while i < events.len()
        invariant
            0 <= i <= events@.len(),
            s.state == old(s).state,
            s.last_sequence == old(s).last_sequence + i,
            out@.len() == i,
            forall|m: int|
                0 <= m < i ==> (#[trigger] out@[m])@.sequence_number == Option::Some(
                    (old(s).last_sequence + 1 + m) as u64,
                ) && out@[m]@.op_code == OP_DISPATCH && out@[m]@.event_data
                    == events@[m].payload@.event_data && out@[m]@.event_name
                    == events@[m].payload@.event_name,
        decreases events@.len() - i,
    {
        let p = dispatch_event(s, &events[i]);
        out.push(p);
        i += 1;
    }
    out
}

/// The raw data of a Resumed dispatch: the JSON value `null`.
pub open spec fn resumed_data() -> Seq<u8> {
    seq![110u8, 117u8, 108u8, 108u8]
}

/// The event name of a Resumed dispatch: `RESUMED`.
pub open spec fn resumed_name() -> Seq<u8> {
    seq![82u8, 69u8, 83u8, 85u8, 77u8, 69u8, 68u8]
}

/// Replays the events missed since the resumed sequence number, in order
/// and with their stamps increasing by one, then closes with a Resumed
/// dispatch stamped one past the last replayed event.
pub fn replay_missed(s: &mut Session, missed: &Vec<Event>) -> (r: Vec<GatewayPayload>)
    requires
        old(s).last_sequence + missed@.len() + 1 <= u64::MAX,
    ensures
        final(s).state == old(s).state,
        final(s).last_sequence == old(s).last_sequence + missed@.len() + 1,
        r@.len() == missed@.len() + 1,
        forall|i: int|
            0 <= i < missed@.len() ==> (#[trigger] r@[i])@.sequence_number == Option::Some(
                (old(s).last_sequence + 1 + i) as u64,
            ) && r@[i]@.op_code == OP_DISPATCH && r@[i]@.event_data
                == missed@[i].payload@.event_data && r@[i]@.event_name
                == missed@[i].payload@.event_name,
        r@.last()@.op_code == OP_DISPATCH,
        r@.last()@.sequence_number == Option::Some(
            (old(s).last_sequence + missed@.len() + 1) as u64,
        ),
        r@.last()@.event_data == resumed_data(),
        r@.last()@.event_name == Option::Some(resumed_name()),
{
    let mut out = dispatch_all(s, missed);
    s.last_sequence = s.last_sequence + 1;
    let mut data: Vec<u8> = Vec::new();
    data.push(110);
    data.push(117);
    data.push(108);
    data.push(108);
    let mut name: Vec<u8> = Vec::new();
    name.push(82);
    name.push(69);
    name.push(83);
    name.push(85);
    name.push(77);
    name.push(69);
    name.push(68);
    proof {
        assert(data@ =~= resumed_data());
        assert(name@ =~= resumed_name());
    }
    let resumed = GatewayPayload {
        op_code: OP_DISPATCH,
        event_data: data,
        sequence_number: Option::Some(s.last_sequence),
        event_name: Option::Some(name),
    };
    out.push(resumed);
    out
}

/// The raw data of the Hello frame: `{"heartbeat_interval":45000}`.
pub open spec fn hello_data() -> Seq<u8> {
    seq![
        123u8, 34u8, 104u8, 101u8, 97u8, 114u8, 116u8, 98u8, 101u8, 97u8, 116u8, 95u8, 105u8,
        110u8, 116u8, 101u8, 114u8, 118u8, 97u8, 108u8, 34u8, 58u8,
    ] + dec_u64(HEARTBEAT_INTERVAL_MS) + seq![125u8]
}

/// The Hello frame sent on connect: opcode 10 carrying the heartbeat
/// interval in milliseconds, no sequence number, no event name.
pub fn hello_payload() -> (r: GatewayPayload)
    ensures
        r@.op_code == OP_HELLO,
        r@.event_data == hello_data(),
        r@.sequence_number is None,
        r@.event_name is None,
{
    let mut data: Vec<u8> = Vec::new();
    data.push(123);
    data.push(34);
    data.push(104);
    data.push(101);
    data.push(97);
    data.push(114);
    data.push(116);
    data.push(98);
    data.push(101);
    data.push(97);
    data.push(116);
    data.push(95);
    data.push(105);
    data.push(110);
    data.push(116);
    data.push(101);
    data.push(114);
    data.push(118);
    data.push(97);
    data.push(108);
    data.push(34);
    data.push(58);
    crate::codec::enc_u64_push(&mut data, HEARTBEAT_INTERVAL_MS);
    data.push(125);
    proof {
        assert(data@ =~= hello_data());
    }
    GatewayPayload {
        op_code: OP_HELLO,
        event_data: data,
        sequence_number: Option::None,
        event_name: Option::None,
    }
}

/// The wire bytes of a HeartbeatAck frame: `{"op":11}`.
pub open spec fn ack_bytes() -> Seq<u8> {
    seq![123u8, 34u8, 111u8, 112u8, 34u8, 58u8, 49u8, 49u8, 125u8]
}

/// Builds the HeartbeatAck frame.
pub fn heartbeat_ack_frame() -> (r: Vec<u8>)
    ensures
        r@ == ack_bytes(),
{
    let mut out: Vec<u8> = Vec::new();
    out.push(123);
    out.push(34);
    out.push(111);
    out.push(112);
    out.push(34);
    out.push(58);
    out.push(49);
    out.push(49);
    out.push(125);
    proof {
        assert(out@ =~= ack_bytes());
    }
    out
}

/// The wire bytes of a Reconnect frame: `{"op":7}`.
pub open spec fn reconnect_bytes() -> Seq<u8> {
    seq![123u8, 34u8, 111u8, 112u8, 34u8, 58u8, 55u8, 125u8]
}

/// Builds the Reconnect frame.
pub fn reconnect_frame() -> (r: Vec<u8>)
    ensures
        r@ == reconnect_bytes(),
{
    let mut out: Vec<u8> = Vec::new();
    out.push(123);
    out.push(34);
    out.push(111);
    out.push(112);
    out.push(34);
    out.push(58);
    out.push(55);
    out.push(125);
    proof {
        assert(out@ =~= reconnect_bytes());
    }
    out
}

/// The raw data of a non-resumable InvalidSession frame: `false`.
pub open spec fn invalid_session_data() -> Seq<u8> {
    seq![102u8, 97u8, 108u8, 115u8, 101u8]
}

/// The InvalidSession frame with `d == false`: the session cannot be
/// resumed.
pub fn invalid_session_payload() -> (r: GatewayPayload)
    ensures
        r@.op_code == OP_INVALID_SESSION,
        r@.event_data == invalid_session_data(),
        r@.sequence_number is None,
        r@.event_name is None,
{
    let mut data: Vec<u8> = Vec::new();
    data.push(102);
    data.push(97);
    data.push(108);
    data.push(115);
    data.push(101);
    proof {
        assert(data@ =~= invalid_session_data());
    }
    GatewayPayload {
        op_code: OP_INVALID_SESSION,
        event_data: data,
        sequence_number: Option::None,
        event_name: Option::None,
    }
}

// ---------------------------------------------------------------------------
// Reading client frames.
// ---------------------------------------------------------------------------

/// The accumulated members of a Resume data object while it is parsed.
pub struct ResumeFields {
    pub token: Option<Seq<u8>>,
    pub session_id: Option<Seq<u8>>,
    pub seq_no: Option<u64>,
}

pub open spec fn empty_resume_fields() -> ResumeFields {
    ResumeFields { token: Option::None, session_id: Option::None, seq_no: Option::None }
}

/// The member name `token`.
pub open spec fn key_token() -> Seq<u8> {
    seq![116u8, 111u8, 107u8, 101u8, 110u8]
}

/// The member name `session_id`.
pub open spec fn key_session_id() -> Seq<u8> {
    seq![115u8, 101u8, 115u8, 115u8, 105u8, 111u8, 110u8, 95u8, 105u8, 100u8]
}

/// The member name `seq`.
pub open spec fn key_seq() -> Seq<u8> {
    seq![115u8, 101u8, 113u8]
}

/// Reads the value of one member of a Resume data object starting at `i`
/// (whitespace already skipped): `token` and `session_id` are strings,
/// `seq` is an unsigned 64-bit number; an unknown member's value is
/// skipped, and a repeated member rejects the data.
pub open spec fn spec_resume_member_value(
    s: Seq<u8>,
    i: int,
    key: Seq<u8>,
    acc: ResumeFields,
) -> Option<(ResumeFields, int)> {
    if key == key_token() {
        if acc.token is Some {
            Option::None
        } else if 0 <= i && i < s.len() && s[i] == 34 {
            let te = name_end(s, i + 1);
            if te < s.len() && s[te] == 34 {
                Option::Some(
                    (ResumeFields { token: Option::Some(s.subrange(i + 1, te)), ..acc }, te + 1),
                )
            } else {
                Option::None
            }
        } else {
            Option::None
        }
    } else if key == key_session_id() {
        if acc.session_id is Some {
            Option::None
        } else if 0 <= i && i < s.len() && s[i] == 34 {
            let te = name_end(s, i + 1);
            if te < s.len() && s[te] == 34 {
                Option::Some(
                    (
                        ResumeFields { session_id: Option::Some(s.subrange(i + 1, te)), ..acc },
                        te + 1,
                    ),
                )
            } else {
                Option::None
            }
        } else {
            Option::None
        }
    } else if key == key_seq() {
        if acc.seq_no is Some {
            Option::None
        } else {
            match spec_parse_u64(s, i) {
                Option::None => Option::None,
                Option::Some((v, j)) => Option::Some(
                    (ResumeFields { seq_no: Option::Some(v), ..acc }, j),
                ),
            }
        }
    } else {
        match scan_from(s, i, scan_init()) {
            Option::None => Option::None,
            Option::Some(ve) => {
                let te = trim_ws_end(s, i, ve);
                if te <= i {
                    Option::None
                } else {
                    Option::Some((acc, te))
                }
            },
        }
    }
}

/// Reads the members of a Resume data object, in any order and with
/// optional whitespace, `i` standing at the opening quote of a member
/// name. Returns the accumulated fields and the index of the closing
/// brace.
pub open spec fn spec_resume_members(s: Seq<u8>, i: int, acc: ResumeFields) -> Option<
    (ResumeFields, int),
>
    decreases s.len() - i,
{
    if i < 0 || i >= s.len() || s[i] != 34 {
        Option::None
    } else {
        let ke = name_end(s, i + 1);
        if !(ke < s.len() && s[ke] == 34) {
            Option::None
        } else {
            let key = s.subrange(i + 1, ke);
            let ci = skip_ws(s, ke + 1);
            if !(ci < s.len() && s[ci] == 58) {
                Option::None
            } else {
                let vs = skip_ws(s, ci + 1);
                match spec_resume_member_value(s, vs, key, acc) {
                    Option::None => Option::None,
                    Option::Some((acc2, ve)) => {
                        let di = skip_ws(s, ve);
                        if di >= s.len() {
                            Option::None
                        } else if s[di] == 44 {
                            let ni = skip_ws(s, di + 1);
                            if ni <= i || ni > s.len() {
                                Option::None
                            } else {
                                spec_resume_members(s, ni, acc2)
                            }
                        } else if s[di] == 125 {
                            Option::Some((acc2, di))
                        } else {
                            Option::None
                        }
                    },
                }
            }
        }
    }
}

/// The session id and sequence number carried by a Resume frame's data:
/// one JSON object with `session_id` (string) and `seq` (unsigned 64-bit)
/// mandatory, members in any order with optional whitespace, unknown
/// members skipped.
pub open spec fn spec_parse_resume(d: Seq<u8>) -> Option<(Seq<u8>, u64)> {
    let i0 = skip_ws(d, 0);
    if !(i0 < d.len() && d[i0] == 123) {
        Option::None
    } else {
        let i1 = skip_ws(d, i0 + 1);
        if i1 < d.len() && d[i1] == 125 {
            Option::None
        } else {
            match spec_resume_members(d, i1, empty_resume_fields()) {
                Option::None => Option::None,
                Option::Some((acc, ci)) => {
                    let e = skip_ws(d, ci + 1);
                    if e != d.len() {
                        Option::None
                    } else if acc.session_id is Some && acc.seq_no is Some {
                        Option::Some((acc.session_id->Some_0, acc.seq_no->Some_0))
                    } else {
                        Option::None
                    }
                },
            }
        }
    }
}

/// The fields the exec parser has accumulated, as a [`ResumeFields`].
pub open spec fn resume_fields_view(
    tok_v: Option<Vec<u8>>,
    sid_v: Option<Vec<u8>>,
    seq_v: Option<u64>,
) -> ResumeFields {
    ResumeFields {
        token: match tok_v {
            Option::Some(v) => Option::Some(v@),
            Option::None => Option::None,
        },
        session_id: match sid_v {
            Option::Some(v) => Option::Some(v@),
            Option::None => Option::None,
        },
        seq_no: seq_v,
    }
}

/// Reads the session id and sequence number out of a Resume frame's data,
/// exactly as [`spec_parse_resume`] describes.
pub fn parse_resume_data(d: &Vec<u8>) -> (r: Option<(Vec<u8>, u64)>)
    ensures
        match r {
            Option::Some((sid, seq)) => spec_parse_resume(d@) == Option::Some((sid@, seq)),
            Option::None => spec_parse_resume(d@) is None,
        },
{
    let n = d.len();
    let i0 = skip_ws_at(d, 0);
    if !(i0 < n && d[i0] == 123) {
        return Option::None;
    }
    let i1 = skip_ws_at(d, i0 + 1);
    if i1 < n && d[i1] == 125 {
        return Option::None;
    }
    let k_token: Vec<u8> = vec![116u8, 111u8, 107u8, 101u8, 110u8];
    let k_sid: Vec<u8> = vec![115u8, 101u8, 115u8, 115u8, 105u8, 111u8, 110u8, 95u8, 105u8, 100u8];
    let k_seq: Vec<u8> = vec![115u8, 101u8, 113u8];
    proof {
        assert(k_token@ =~= key_token());
        assert(k_sid@ =~= key_session_id());
        assert(k_seq@ =~= key_seq());
    }
    let mut i: usize = i1;
    let mut tok_v: Option<Vec<u8>> = Option::None;
    let mut sid_v: Option<Vec<u8>> = Option::None;
    let mut seq_v: Option<u64> = Option::None;
    let close_i: usize;
    loop
        invariant
            i <= n,
            n == d@.len(),
            k_token@ == key_token() && k_sid@ == key_session_id() && k_seq@ == key_seq(),
            spec_resume_members(d@, i1 as int, empty_resume_fields()) == spec_resume_members(
                d@,
                i as int,
                resume_fields_view(tok_v, sid_v, seq_v),
            ),
        decreases n - i,
    {
        let ghost acc = resume_fields_view(tok_v, sid_v, seq_v);
        if !(i < n && d[i] == 34) {
            return Option::None;
        }
        let ke = scan_name(d, i + 1);
        if !(ke < n && d[ke] == 34) {
            return Option::None;
        }
        let ghost key = d@.subrange(i + 1, ke as int);
        let ci = skip_ws_at(d, ke + 1);
        if !(ci < n && d[ci] == 58) {
            return Option::None;
        }
        let vs = skip_ws_at(d, ci + 1);
        let is_token = span_eq(d, i + 1, ke, &k_token);
        let is_sid = span_eq(d, i + 1, ke, &k_sid);
        let is_seq = span_eq(d, i + 1, ke, &k_seq);
        let ve: usize;
        if is_token || is_sid {
            if is_token && tok_v.is_some() {
                return Option::None;
            }
            if is_sid && sid_v.is_some() {
                return Option::None;
            }
            if vs < n && d[vs] == 34 {
                let te = scan_name(d, vs + 1);
                if te < n && d[te] == 34 {
                    let value = copy_range(d, vs + 1, te);
                    if is_token {
                        tok_v = Option::Some(value);
                    } else {
                        sid_v = Option::Some(value);
                    }
                    ve = te + 1;
                } else {
                    return Option::None;
                }
            } else {
                return Option::None;
            }
        } else if is_seq {
            if seq_v.is_some() {
                return Option::None;
            }
            match parse_u64(d, vs) {
                Option::None => {
                    return Option::None;
                },
                Option::Some((v, j)) => {
                    seq_v = Option::Some(v);
                    ve = j;
                },
            }
        } else {
            match scan_value(d, vs) {
                Option::None => {
                    return Option::None;
                },
                Option::Some(sce) => {
                    let te = trim_ws_at(d, vs, sce);
                    if te <= vs {
                        return Option::None;
                    }
                    ve = te;
                },
            }
        }
        proof {
            assert(spec_resume_member_value(d@, vs as int, key, acc) == Option::Some(
                (resume_fields_view(tok_v, sid_v, seq_v), ve as int),
            ));
        }
        let di = skip_ws_at(d, ve);
        if di >= n {
            return Option::None;
        }
        if d[di] == 44 {
            let ni = skip_ws_at(d, di + 1);
            if ni <= i {
                return Option::None;
            }
            i = ni;
        } else if d[di] == 125 {
            close_i = di;
            break;
        } else {
            return Option::None;
        }
    }
    let e = skip_ws_at(d, close_i + 1);
    if e != n {
        return Option::None;
    }
    let session_id = match sid_v {
        Option::Some(v) => v,
        Option::None => {
            return Option::None;
        },
    };
    let seq = match seq_v {
        Option::Some(v) => v,
        Option::None => {
            return Option::None;
        },
    };
    Option::Some((session_id, seq))
}

/// The sequence number a Heartbeat frame's data carries, when the data is
/// exactly one number.
pub open spec fn spec_heartbeat_num(d: Seq<u8>) -> Option<u64> {
    match spec_parse_u64(d, 0) {
        Option::Some((v, j)) => {
            if j == d.len() {
                Option::Some(v)
            } else {
                Option::None
            }
        },
        Option::None => Option::None,
    }
}

/// `f` is the reading of the decoded payload `p` as a client frame.
pub open spec fn frame_of(p: PayloadView, f: ClientFrame) -> bool {
    match f {
        ClientFrame::Identify => p.op_code == OP_IDENTIFY,
        ClientFrame::Resume { session_id, seq } => p.op_code == OP_RESUME && spec_parse_resume(
            p.event_data,
        ) == Option::Some((session_id@, seq)),
        ClientFrame::Heartbeat { d } => p.op_code == OP_HEARTBEAT && d == spec_heartbeat_num(
            p.event_data,
        ),
        ClientFrame::Other { op } => p.op_code == op && op != OP_HEARTBEAT && op != OP_IDENTIFY
            && op != OP_RESUME,
    }
}

/// Decodes one wire frame and reads it as a client frame. A frame that
/// does not decode, or a Resume whose data is malformed, is a protocol
/// violation.
pub fn parse_client_frame(b: &Vec<u8>) -> (r: Result<ClientFrame, Error>)
    ensures
        match r {
            Result::Ok(f) => spec_decode(b@) is Some && frame_of(spec_decode(b@)->Some_0, f),
            Result::Err(e) => e == Error::ProtocolViolation && (spec_decode(b@) is None || (
            spec_decode(b@)->Some_0.op_code == OP_RESUME && spec_parse_resume(
                spec_decode(b@)->Some_0.event_data,
            ) is None)),
        },
{
    let p = match decode_payload(b) {
        Result::Ok(p) => p,
        Result::Err(e) => {
            return Result::Err(e);
        },
    };
    if p.op_code == OP_HEARTBEAT {
        let d = match parse_u64(&p.event_data, 0) {
            Option::Some((v, e)) => {
                if e == p.event_data.len() {
                    Option::Some(v)
                } else {
                    Option::None
                }
            },
            Option::None => Option::None,
        };
        Result::Ok(ClientFrame::Heartbeat { d })
    } else if p.op_code == OP_IDENTIFY {
        Result::Ok(ClientFrame::Identify)
    } else if p.op_code == OP_RESUME {
        match parse_resume_data(&p.event_data) {
            Option::Some((session_id, seq)) => Result::Ok(
                ClientFrame::Resume { session_id, seq },
            ),
            Option::None => Result::Err(Error::ProtocolViolation),
        }
    } else {
        Result::Ok(ClientFrame::Other { op: p.op_code })
    }
}

/// The event name of a Ready dispatch: `READY`.
pub open spec fn ready_name() -> Seq<u8> {
    seq![82u8, 69u8, 65u8, 68u8, 89u8]
}

/// The Ready dispatch envelope: opcode 0, the given event data, the given
/// sequence number, and the event name `READY`.
pub fn ready_payload(event_data: Vec<u8>, s: u64) -> (r: GatewayPayload)
    ensures
        r@.op_code == OP_DISPATCH,
        r@.event_data == event_data@,
        r@.sequence_number == Option::Some(s),
        r@.event_name == Option::Some(ready_name()),
{
    let mut name: Vec<u8> = Vec::new();
    name.push(82);
    name.push(69);
    name.push(65);
    name.push(68);
    name.push(89);
    proof {
        assert(name@ =~= ready_name());
    }
    GatewayPayload {
        op_code: OP_DISPATCH,
        event_data,
        sequence_number: Option::Some(s),
        event_name: Option::Some(name),
    }
}

/// A liveness timeout kills the client silently: the kill switch fires
/// exactly once and no outbound frame is sent.
pub fn on_liveness_timeout(s: &mut Session) -> (r: Vec<ServerAction>)
    ensures
        final(s).state == SessionState::Closing,
        final(s).last_sequence == old(s).last_sequence,
        r@ =~= seq![ServerAction::Kill],
{
    s.state = SessionState::Closing;
    let mut actions: Vec<ServerAction> = Vec::new();
    actions.push(ServerAction::Kill);
    actions
}

/// A failed send of an outbound frame — an ack, a reconnect, anything —
/// is fatal: the kill switch fires exactly once, with no retry and no
/// further frame.
pub fn on_send_failure(s: &mut Session) -> (r: Vec<ServerAction>)
    ensures
        final(s).state == SessionState::Closing,
        final(s).last_sequence == old(s).last_sequence,
        r@ =~= seq![ServerAction::Kill],
{
    s.state = SessionState::Closing;
    let mut actions: Vec<ServerAction> = Vec::new();
    actions.push(ServerAction::Kill);
    actions
}

/// Lag on a broadcast ring is never silently dropped: the client is closed
/// with a non-resumable InvalidSession and killed.
pub fn on_broadcast_lag(s: &mut Session) -> (r: Vec<ServerAction>)
    ensures
        final(s).state == SessionState::Closing,
        final(s).last_sequence == old(s).last_sequence,
        r@ =~= seq![ServerAction::SendInvalidSession, ServerAction::Kill],
{
    s.state = SessionState::Closing;
    let mut actions: Vec<ServerAction> = Vec::new();
    actions.push(ServerAction::SendInvalidSession);
    actions.push(ServerAction::Kill);
    actions
}

} // verus!
