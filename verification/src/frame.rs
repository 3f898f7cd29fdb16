//! Input frames, frame-level warnings, and the events the reassembler emits.

use vstd::prelude::*;

verus! {

/// Identifier of a logical stream as it appears on the wire: a 64-bit
/// integer, carried big-endian in the frame header (see [`crate::codec`]).
#[derive(Clone, Copy, Debug, PartialEq, Eq, Hash, Structural)]
pub struct StreamId(pub u64);

/// What a frame carries: either one application payload, or the terminal
/// marker ("fin"). A terminal marker declares the frame's `message_id` to be
/// the id of the last payload of the stream (inclusive end).
#[derive(Clone, Debug, PartialEq, Eq)]
pub enum FrameBody<T> {
    Payload(T),
    Fin,
}

/// One wire unit: a payload or a terminal marker standing at position
/// `message_id` of stream `stream_id`. Within a stream, message ids are
/// dense from 0.
#[derive(Clone, Debug, PartialEq, Eq)]
pub struct Frame<T> {
    pub stream_id: u64,
    pub message_id: u64,
    pub body: FrameBody<T>,
}

/// Why a frame was dropped. All of these are local to the offending frame:
/// the reassembler keeps processing subsequent frames.
#[derive(Clone, Copy, Debug, PartialEq, Eq, Structural)]
pub enum WarningReason {
    /// `message_id` is below the next expected id: a late duplicate or replay.
    LateOrReplay,
    /// `message_id` is larger than the accepted terminal marker's id.
    BeyondFin,
    /// an entry with the same `message_id` already sits in the reorder buffer.
    DuplicateBuffered,
    /// a terminal marker arrived although one was already accepted.
    DuplicateFin,
    /// a terminal marker carries an id below an already observed message id.
    FinBelowMax,
    /// the frame addresses a stream whose record was already retired.
    RetiredStream,
    /// `message_id` is `u64::MAX`, which the per-stream counters cannot
    /// step past; such ids are rejected outright.
    IdOverflow,
    /// the reorder buffer of the stream reached its configured cap; the
    /// stream is closed early and its record dropped.
    BufferOverflow,
}

/// A frame-level anomaly, reported to the caller (which typically logs it)
/// together with the coordinates of the offending frame.
#[derive(Clone, Copy, Debug, PartialEq, Eq, Structural)]
pub struct Warning {
    pub stream_id: u64,
    pub message_id: u64,
    pub reason: WarningReason,
}

/// One externally visible effect of feeding a frame to the reassembler.
/// The caller performs the effects of a frame in order, on real channels.
#[derive(Clone, Debug, PartialEq, Eq)]
pub enum StreamEvent<T> {
    /// A stream is observed for the first time: open a fresh bounded
    /// outbound channel for it and publish the receiving end.
    Announce { stream_id: u64 },
    /// The payload with id `message_id` is the next in order: push it onto
    /// the stream's outbound channel.
    Deliver { stream_id: u64, message_id: u64, payload: T },
    /// The stream is complete (or has failed): close its outbound channel
    /// and forget the stream.
    Close { stream_id: u64 },
}

impl<T> StreamEvent<T> {
    /// The stream an event belongs to.
    pub open spec fn sid(self) -> u64 {
        match self {
            StreamEvent::Announce { stream_id } => stream_id,
            StreamEvent::Deliver { stream_id, .. } => stream_id,
            StreamEvent::Close { stream_id } => stream_id,
        }
    }
}

} // verus!
