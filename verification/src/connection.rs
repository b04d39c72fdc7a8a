//! Decisions of the WebSocket connection adapter. The adapter itself — two
//! tasks pumping a sink/stream pair into a pair of broadcast rings — lives
//! with the runtime; what is verified here is the rule it follows on every
//! transport event: any sink, stream or publish failure is answered by
//! publishing one Close frame with code 1011 and the fixed reason, and
//! stopping the task. A closed broadcast input stops the task silently.

use vstd::prelude::*;

verus! {

/// The WebSocket close code used for every fatal condition.
pub const CLOSE_CODE_ERROR: u16 = 1011;

/// The close reason attached to every fatal Close frame.
pub fn close_reason() -> (r: &'static str)
    ensures
        r@ == "Channel closed or error encountered"@,
{
    "Channel closed or error encountered"
}

/// What one of the adapter's two tasks observes in one step.
#[derive(Debug, Clone, Copy, PartialEq, Eq, Structural)]
pub enum TransportEvent {
    /// The sender task read an outbound frame and wrote it successfully.
    SinkWriteOk,
    /// The sender task's write into the sink failed.
    SinkWriteFailed,
    /// The sender task's broadcast input is closed.
    OutboundClosed,
    /// The receiver task read an inbound frame and published it.
    InboundPublished,
    /// The stream ended.
    StreamEnded,
    /// The stream yielded an error.
    StreamErrored,
    /// Publishing an inbound frame to the broadcast failed.
    InboundPublishFailed,
}

/// What the task must do next.
#[derive(Debug, Clone, Copy, PartialEq, Eq, Structural)]
pub enum TransportAction {
    /// Keep pumping.
    Continue,
    /// Publish Close(1011, the fixed reason) on the outbound broadcast,
    /// then stop.
    PublishCloseAndStop,
    /// Stop without publishing anything.
    Stop,
}

/// The adapter's failure rule: successes continue, every transport failure
/// publishes the uniform Close frame and stops, and a closed outbound
/// broadcast stops silently.
pub fn transport_step(ev: TransportEvent) -> (r: TransportAction)
    ensures
        ev == TransportEvent::SinkWriteOk || ev == TransportEvent::InboundPublished ==> r
            == TransportAction::Continue,
        ev == TransportEvent::SinkWriteFailed || ev == TransportEvent::StreamEnded || ev
            == TransportEvent::StreamErrored || ev == TransportEvent::InboundPublishFailed ==> r
            == TransportAction::PublishCloseAndStop,
        ev == TransportEvent::OutboundClosed ==> r == TransportAction::Stop,
{
    match ev {
        TransportEvent::SinkWriteOk => TransportAction::Continue,
        TransportEvent::InboundPublished => TransportAction::Continue,
        TransportEvent::SinkWriteFailed => TransportAction::PublishCloseAndStop,
        TransportEvent::StreamEnded => TransportAction::PublishCloseAndStop,
        TransportEvent::StreamErrored => TransportAction::PublishCloseAndStop,
        TransportEvent::InboundPublishFailed => TransportAction::PublishCloseAndStop,
        TransportEvent::OutboundClosed => TransportAction::Stop,
    }
}

} // verus!
