//! Heartbeat reconciliation: sequence-number comparison and the decision a
//! heartbeat monitor takes for each observed heartbeat or period of silence.

use vstd::prelude::*;

verus! {

/// Interval at which clients are expected to heartbeat, in milliseconds.
pub const HEARTBEAT_INTERVAL_MS: u64 = 45000;

/// Extra slack granted on top of the heartbeat interval before the monitor
/// wakes up to check liveness, in milliseconds.
pub const LATENCY_BUFFER_MS: u64 = 5000;

/// Granular comparison of two sequence numbers.
#[derive(Debug, Clone, Copy, PartialEq, Eq, Structural)]
pub enum SequenceNumberComparison {
    /// The sequence numbers are identical.
    Correct,
    /// The sequence numbers differ by more than 0 and less than 3.
    SlightlyOff(u64),
    /// The sequence numbers differ by 3 or more.
    WayOff(u64),
}

/// Absolute difference of two sequence numbers.
pub open spec fn seq_diff(one: u64, two: u64) -> u64 {
    if one >= two {
        (one - two) as u64
    } else {
        (two - one) as u64
    }
}

/// Compares two sequence numbers by their absolute difference `d`:
/// `d == 0` is `Correct`, `1 <= d <= 2` is `SlightlyOff(d)`, and
/// `d >= 3` is `WayOff(d)`.
pub fn compare_sequence_numbers(one: u64, two: u64) -> (r: SequenceNumberComparison)
    ensures
        seq_diff(one, two) == 0 ==> r == SequenceNumberComparison::Correct,
        1 <= seq_diff(one, two) <= 2 ==> r == SequenceNumberComparison::SlightlyOff(
            seq_diff(one, two),
        ),
        seq_diff(one, two) >= 3 ==> r == SequenceNumberComparison::WayOff(seq_diff(one, two)),
{
    let max: u64 = if one >= two { one } else { two };
    let min: u64 = if one >= two { two } else { one };
    let diff: u64 = max - min;
    if diff == 0 {
        SequenceNumberComparison::Correct
    } else if diff <= 2 {
        SequenceNumberComparison::SlightlyOff(diff)
    } else {
        SequenceNumberComparison::WayOff(diff)
    }
}

/// What the heartbeat monitor does in reaction to one observed heartbeat.
#[derive(Debug, Clone, Copy, PartialEq, Eq, Structural)]
pub enum HeartbeatOutcome {
    /// Reply with exactly one HeartbeatAck frame and nothing else.
    Ack,
    /// Send a Reconnect frame, then fire the kill switch once.
    ReconnectAndKill,
}

/// Decides the reaction to a heartbeat frame carrying `received` against the
/// client's current sequence number `last_sequence`.
///
/// A heartbeat without a sequence number, or one whose number is within 2 of
/// the local one, is acknowledged with exactly one ack. A drift of 3 or more
/// forces a reconnect followed by a single authoritative kill.
pub fn handle_heartbeat(last_sequence: u64, received: Option<u64>) -> (r: HeartbeatOutcome)
    ensures
        received is None ==> r == HeartbeatOutcome::Ack,
        received matches Some(n) && seq_diff(last_sequence, n) <= 2 ==> r
            == HeartbeatOutcome::Ack,
        received matches Some(n) && seq_diff(last_sequence, n) >= 3 ==> r
            == HeartbeatOutcome::ReconnectAndKill,
{
    match received {
        Option::None => HeartbeatOutcome::Ack,
        Option::Some(n) => match compare_sequence_numbers(last_sequence, n) {
            SequenceNumberComparison::Correct => HeartbeatOutcome::Ack,
            SequenceNumberComparison::SlightlyOff(_) => HeartbeatOutcome::Ack,
            SequenceNumberComparison::WayOff(_) => HeartbeatOutcome::ReconnectAndKill,
        },
    }
}

/// True when a connection with no heartbeat for `elapsed_ms` milliseconds is
/// considered dead.
pub fn liveness_expired(elapsed_ms: u64) -> (r: bool)
    ensures
        r == (elapsed_ms > HEARTBEAT_INTERVAL_MS),
{
    elapsed_ms > HEARTBEAT_INTERVAL_MS
}

/// How long the monitor may sleep between liveness checks, in milliseconds:
/// the heartbeat interval plus the latency buffer.
pub fn poll_window_ms() -> (r: u64)
    ensures
        r == HEARTBEAT_INTERVAL_MS + LATENCY_BUFFER_MS,
{
    HEARTBEAT_INTERVAL_MS + LATENCY_BUFFER_MS
}

} // verus!
