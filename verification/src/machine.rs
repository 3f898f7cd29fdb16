//! The mathematical model of the reassembler.
//!
//! Each stream is a small state machine ([`StreamState`]): unseen, active
//! (with a reorder buffer and a delivery counter), or retired. Feeding one
//! frame advances exactly one stream by one step ([`stream_step`]); a whole
//! run of the reassembler is the fold of those steps ([`model_run`]).
//!
//! Every state corresponds to a unique event history ([`history_for`]), and
//! the central invariant ([`wf_model`]) says that the events emitted so far
//! for a stream are exactly that history: one announcement, then the payloads
//! with message ids 0, 1, 2, ... in order, then at most one close. The
//! executable [`crate::handler::StreamHandler`] is proved to follow this
//! model step by step.

use vstd::prelude::*;

use crate::frame::{Frame, FrameBody, StreamEvent, Warning, WarningReason};

verus! {

/// Model state of one stream.
pub ghost enum StreamState<T> {
    /// No frame for this stream has ever been processed.
    Unseen,
    /// The stream has a live record.
    Active {
        /// Id of the next payload to deliver; equals the number of payloads
        /// delivered so far.
        next_expected: u64,
        /// Id of the last payload of the stream (inclusive), once a terminal
        /// marker has been accepted.
        fin: Option<u64>,
        /// Largest message id accepted on this stream so far.
        max_seen: u64,
        /// Payloads that arrived out of order, keyed by message id.
        buffer: Map<u64, T>,
        /// Every payload delivered so far, in delivery order; the payload
        /// with id `i` sits at position `i`.
        delivered: Seq<T>,
    },
    /// The record was dropped. `complete` tells whether the stream delivered
    /// everything up to its terminal id, or was killed early by a reorder
    /// buffer overflow.
    Retired { delivered: Seq<T>, fin: Option<u64>, complete: bool },
}

/// Result of one step of the per-stream machine: the successor state, the
/// events emitted by the step, and the warning if the frame was dropped.
pub ghost struct StepResult<T> {
    pub state: StreamState<T>,
    pub events: Seq<StreamEvent<T>>,
    pub warning: Option<Warning>,
}

/// The state a stream is in right after its first frame created a record.
pub open spec fn fresh_stream<T>() -> StreamState<T> {
    StreamState::Active {
        next_expected: 0,
        fin: None,
        max_seen: 0,
        buffer: Map::empty(),
        delivered: Seq::empty(),
    }
}

/// The step that drops the frame: state unchanged, no events, one warning.
pub open spec fn warned<T>(
    s: StreamState<T>,
    sid: u64,
    mid: u64,
    reason: WarningReason,
) -> StepResult<T> {
    StepResult {
        state: s,
        events: Seq::empty(),
        warning: Some(Warning { stream_id: sid, message_id: mid, reason }),
    }
}

/// The larger of two ids.
pub open spec fn max_u64(a: u64, b: u64) -> u64 {
    if a < b {
        b
    } else {
        a
    }
}

/// Result of draining a reorder buffer from a given id upward.
pub ghost struct DrainResult<T> {
    pub next: u64,
    pub buffer: Map<u64, T>,
    pub delivered: Seq<T>,
    pub events: Seq<StreamEvent<T>>,
}

/// Drain the reorder buffer: as long as the entry keyed `next` exists,
/// remove it, deliver it, and move on to `next + 1`.
pub open spec fn drain<T>(
    sid: u64,
    next: u64,
    buffer: Map<u64, T>,
    delivered: Seq<T>,
) -> DrainResult<T>
    decreases u64::MAX - next,
{
    if next < u64::MAX && buffer.dom().contains(next) {
        let p = buffer[next];
        let rest = drain(sid, (next + 1) as u64, buffer.remove(next), delivered.push(p));
        DrainResult {
            next: rest.next,
            buffer: rest.buffer,
            delivered: rest.delivered,
            events: seq![
                StreamEvent::Deliver { stream_id: sid, message_id: next, payload: p },
            ] + rest.events,
        }
    } else {
        DrainResult { next, buffer, delivered, events: Seq::empty() }
    }
}

/// One step of the per-stream machine on a live record.
///
/// A terminal marker is rejected when one was already accepted or when its id
/// sits below an already observed id; otherwise it fixes `fin`, and the
/// stream retires at once if everything up to `fin` was already delivered.
/// A payload beyond `fin` or below `next_expected` is dropped; the payload at
/// `next_expected` is delivered and the buffer drained behind it; any other
/// payload is buffered, unless its id is already buffered or the buffer is at
/// its configured cap (which kills the stream early).
pub open spec fn active_step<T>(
    s: StreamState<T>,
    f: Frame<T>,
    cap: Option<usize>,
) -> StepResult<T>
    recommends
        s is Active,
        f.message_id < u64::MAX,
{
    let sid = f.stream_id;
    let mid = f.message_id;
    match s {
        StreamState::Active { next_expected, fin, max_seen, buffer, delivered } => {
            match f.body {
                FrameBody::Fin => {
                    if fin is Some {
                        warned(s, sid, mid, WarningReason::DuplicateFin)
                    } else if mid < max_seen {
                        warned(s, sid, mid, WarningReason::FinBelowMax)
                    } else if next_expected == mid + 1 {
                        StepResult {
                            state: StreamState::Retired {
                                delivered,
                                fin: Some(mid),
                                complete: true,
                            },
                            events: seq![StreamEvent::Close { stream_id: sid }],
                            warning: None,
                        }
                    } else {
                        StepResult {
                            state: StreamState::Active {
                                next_expected,
                                fin: Some(mid),
                                max_seen: mid,
                                buffer,
                                delivered,
                            },
                            events: Seq::empty(),
                            warning: None,
                        }
                    }
                },
                FrameBody::Payload(p) => {
                    if fin matches Some(fv) && mid > fv {
                        warned(s, sid, mid, WarningReason::BeyondFin)
                    } else if mid < next_expected {
                        warned(s, sid, mid, WarningReason::LateOrReplay)
                    } else if mid == next_expected {
                        let d = drain(sid, (mid + 1) as u64, buffer, delivered.push(p));
                        let delivers = seq![
                            StreamEvent::Deliver { stream_id: sid, message_id: mid, payload: p },
                        ] + d.events;
                        if fin matches Some(fv) && d.next == fv + 1 {
                            StepResult {
                                state: StreamState::Retired {
                                    delivered: d.delivered,
                                    fin,
                                    complete: true,
                                },
                                events: delivers + seq![StreamEvent::Close { stream_id: sid }],
                                warning: None,
                            }
                        } else {
                            StepResult {
                                state: StreamState::Active {
                                    next_expected: d.next,
                                    fin,
                                    max_seen: max_u64(max_seen, mid),
                                    buffer: d.buffer,
                                    delivered: d.delivered,
                                },
                                events: delivers,
                                warning: None,
                            }
                        }
                    } else {
                        if buffer.dom().contains(mid) {
                            warned(s, sid, mid, WarningReason::DuplicateBuffered)
                        } else if cap matches Some(c) && buffer.len() >= c {
                            StepResult {
                                state: StreamState::Retired { delivered, fin, complete: false },
                                events: seq![StreamEvent::Close { stream_id: sid }],
                                warning: Some(Warning {
                                    stream_id: sid,
                                    message_id: mid,
                                    reason: WarningReason::BufferOverflow,
                                }),
                            }
                        } else {
                            StepResult {
                                state: StreamState::Active {
                                    next_expected,
                                    fin,
                                    max_seen: max_u64(max_seen, mid),
                                    buffer: buffer.insert(mid, p),
                                    delivered,
                                },
                                events: Seq::empty(),
                                warning: None,
                            }
                        }
                    }
                },
            }
        },
        _ => StepResult { state: s, events: Seq::empty(), warning: None },
    }
}

/// One step of the reassembler for one stream: frames with an unusable id
/// and frames for retired streams are dropped; the first frame of a stream
/// creates its record and announces it; every other frame advances the
/// live record.
pub open spec fn stream_step<T>(
    s: StreamState<T>,
    f: Frame<T>,
    cap: Option<usize>,
) -> StepResult<T> {
    let sid = f.stream_id;
    let mid = f.message_id;
    if mid == u64::MAX {
        warned(s, sid, mid, WarningReason::IdOverflow)
    } else {
        match s {
            StreamState::Retired { .. } => warned(s, sid, mid, WarningReason::RetiredStream),
            StreamState::Unseen => {
                let r = active_step(fresh_stream::<T>(), f, cap);
                StepResult {
                    state: r.state,
                    events: seq![StreamEvent::Announce { stream_id: sid }] + r.events,
                    warning: r.warning,
                }
            },
            StreamState::Active { .. } => active_step(s, f, cap),
        }
    }
}

/// Well-formedness of one stream's state.
pub open spec fn wf_stream<T>(s: StreamState<T>, cap: Option<usize>) -> bool {
    match s {
        StreamState::Unseen => true,
        StreamState::Active { next_expected, fin, max_seen, buffer, delivered } => {
            &&& delivered.len() == next_expected
            &&& max_seen < u64::MAX
            &&& next_expected == 0 || max_seen >= next_expected - 1
            &&& buffer.dom().finite()
            &&& forall|k: u64|
                #[trigger] buffer.dom().contains(k) ==> next_expected < k && k <= max_seen
            &&& (fin matches Some(fv) ==> max_seen <= fv && next_expected <= fv && fv < u64::MAX)
            &&& (cap matches Some(c) ==> buffer.len() <= c)
        },
        StreamState::Retired { delivered, fin, complete } => {
            &&& delivered.len() <= u64::MAX
            &&& (complete ==> (fin matches Some(fv) && delivered.len() == fv + 1))
        },
    }
}

/// The delivery events for a sequence of payloads with ids 0, 1, 2, ...
pub open spec fn deliver_events<T>(sid: u64, payloads: Seq<T>) -> Seq<StreamEvent<T>> {
    Seq::new(
        payloads.len(),
        |i: int|
            StreamEvent::Deliver { stream_id: sid, message_id: i as u64, payload: payloads[i] },
    )
}

/// The full event history a stream state stands for: nothing before the
/// stream is seen; one announcement followed by the deliveries so far while
/// it is active; and additionally one final close once it is retired.
pub open spec fn history_for<T>(sid: u64, s: StreamState<T>) -> Seq<StreamEvent<T>> {
    match s {
        StreamState::Unseen => Seq::empty(),
        StreamState::Active { delivered, .. } => {
            seq![StreamEvent::Announce { stream_id: sid }] + deliver_events(sid, delivered)
        },
        StreamState::Retired { delivered, .. } => {
            seq![StreamEvent::Announce { stream_id: sid }] + deliver_events(sid, delivered)
                + seq![StreamEvent::Close { stream_id: sid }]
        },
    }
}

/// The subsequence of a trace that belongs to one stream.
pub open spec fn project<T>(trace: Seq<StreamEvent<T>>, sid: u64) -> Seq<StreamEvent<T>> {
    trace.filter(|e: StreamEvent<T>| e.sid() == sid)
}

/// All events of a sequence belong to the given stream.
pub open spec fn all_for<T>(events: Seq<StreamEvent<T>>, sid: u64) -> bool {
    forall|i: int| 0 <= i < events.len() ==> (#[trigger] events[i]).sid() == sid
}

/// Model of a whole reassembler: the state of every stream, and the trace of
/// all events emitted so far, in emission order.
pub ghost struct HandlerModel<T> {
    pub states: Map<u64, StreamState<T>>,
    pub trace: Seq<StreamEvent<T>>,
}

/// The model before any frame was processed.
pub open spec fn initial_model<T>() -> HandlerModel<T> {
    HandlerModel {
        states: Map::total(|sid: u64| StreamState::Unseen),
        trace: Seq::empty(),
    }
}

/// Feeding one frame to the reassembler: exactly the addressed stream steps,
/// and the step's events are appended to the trace.
pub open spec fn model_step<T>(
    m: HandlerModel<T>,
    f: Frame<T>,
    cap: Option<usize>,
) -> HandlerModel<T> {
    let r = stream_step(m.states[f.stream_id], f, cap);
    HandlerModel { states: m.states.insert(f.stream_id, r.state), trace: m.trace + r.events }
}

/// Feeding a whole sequence of frames, in order.
pub open spec fn model_run<T>(frames: Seq<Frame<T>>, cap: Option<usize>) -> HandlerModel<T>
    decreases frames.len(),
{
    if frames.len() == 0 {
        initial_model()
    } else {
        model_step(model_run(frames.drop_last(), cap), frames.last(), cap)
    }
}

/// The central invariant: every stream state is well formed, and the trace,
/// projected to any one stream, is exactly the history its state stands for.
pub open spec fn wf_model<T>(m: HandlerModel<T>, cap: Option<usize>) -> bool {
    &&& forall|sid: u64| m.states.dom().contains(sid)
    &&& forall|sid: u64| wf_stream(#[trigger] m.states[sid], cap)
    &&& forall|sid: u64| project(m.trace, sid) == history_for(sid, #[trigger] m.states[sid])
}

/// State and cumulative events of one stream fed only its own frames.
pub ghost struct StreamRun<T> {
    pub state: StreamState<T>,
    pub events: Seq<StreamEvent<T>>,
}

/// Run the per-stream machine alone over a sequence of frames.
pub open spec fn stream_run<T>(frames: Seq<Frame<T>>, cap: Option<usize>) -> StreamRun<T>
    decreases frames.len(),
{
    if frames.len() == 0 {
        StreamRun { state: StreamState::Unseen, events: Seq::empty() }
    } else {
        let prev = stream_run(frames.drop_last(), cap);
        let r = stream_step(prev.state, frames.last(), cap);
        StreamRun { state: r.state, events: prev.events + r.events }
    }
}

/// The subsequence of an input that addresses one stream.
pub open spec fn frames_for<T>(frames: Seq<Frame<T>>, sid: u64) -> Seq<Frame<T>> {
    frames.filter(|f: Frame<T>| f.stream_id == sid)
}

/// Unrolling a run one frame at a time.
pub proof fn lemma_model_push<T>(frames: Seq<Frame<T>>, f: Frame<T>, cap: Option<usize>)
    ensures
        model_run(frames.push(f), cap) == model_step(model_run(frames, cap), f, cap),
{
    assert(frames.push(f).drop_last() =~= frames);
    assert(frames.push(f).last() == f);
}

/// Every event `drain` emits is a delivery, and belongs to the given stream.
pub proof fn lemma_drain_events_for<T>(sid: u64, next: u64, buffer: Map<u64, T>, delivered: Seq<T>)
    ensures
        all_for(drain(sid, next, buffer, delivered).events, sid),
        forall|i: int|
            0 <= i < drain(sid, next, buffer, delivered).events.len() ==> (#[trigger] drain(
                sid,
                next,
                buffer,
                delivered,
            ).events[i]) is Deliver,
    decreases u64::MAX - next,
{
    if next < u64::MAX && buffer.dom().contains(next) {
        let p = buffer[next];
        let rest = drain(sid, (next + 1) as u64, buffer.remove(next), delivered.push(p));
        lemma_drain_events_for(sid, (next + 1) as u64, buffer.remove(next), delivered.push(p));
        let d = drain(sid, next, buffer, delivered);
        assert forall|i: int|
            0 <= i < d.events.len() implies (#[trigger] d.events[i]).sid() == sid && d.events[i] is Deliver by {
            if i > 0 {
                assert(d.events[i] == rest.events[i - 1]);
            }
        }
    }
}

/// What draining does: it moves the dense run of buffered entries that starts
/// at `next` out of the buffer and onto the end of `delivered`, emitting one
/// delivery event per entry, with consecutive message ids.
pub proof fn lemma_drain<T>(sid: u64, next: u64, buffer: Map<u64, T>, delivered: Seq<T>, b: u64)
    requires
        buffer.dom().finite(),
        forall|k: u64| #[trigger] buffer.dom().contains(k) ==> next <= k <= b,
        b < u64::MAX,
        next <= b + 1,
    ensures
        ({
            let d = drain(sid, next, buffer, delivered);
            &&& next <= d.next <= b + 1
            &&& !d.buffer.dom().contains(d.next)
            &&& d.buffer.dom().finite()
            &&& forall|k: u64|
                #![trigger d.buffer.dom().contains(k)]
                #![trigger buffer.dom().contains(k)]
                d.buffer.dom().contains(k) <==> buffer.dom().contains(k) && d.next <= k
            &&& forall|k: u64| #[trigger] d.buffer.dom().contains(k) ==> d.buffer[k] == buffer[k]
            &&& d.buffer.len() <= buffer.len()
            &&& d.delivered.len() == delivered.len() + (d.next - next)
            &&& forall|i: int| 0 <= i < delivered.len() ==> #[trigger] d.delivered[i] == delivered[i]
            &&& d.events.len() == d.next - next
            &&& forall|i: int|
                0 <= i < d.events.len() ==> #[trigger] d.events[i] == (StreamEvent::Deliver {
                    stream_id: sid,
                    message_id: (next + i) as u64,
                    payload: d.delivered[delivered.len() + i],
                })
        }),
    decreases u64::MAX - next,
{
    let d = drain(sid, next, buffer, delivered);
    if next < u64::MAX && buffer.dom().contains(next) {
        let p = buffer[next];
        let buffer2 = buffer.remove(next);
        let delivered2 = delivered.push(p);
        lemma_drain(sid, (next + 1) as u64, buffer2, delivered2, b);
        let rest = drain(sid, (next + 1) as u64, buffer2, delivered2);
        assert(buffer2.len() < buffer.len()) by {
            assert(buffer2.dom() == buffer.dom().remove(next));
        }
        assert forall|i: int|
            0 <= i < d.events.len() implies #[trigger] d.events[i] == (StreamEvent::Deliver {
            stream_id: sid,
            message_id: (next + i) as u64,
            payload: d.delivered[delivered.len() + i],
        }) by {
            if i == 0 {
                assert(d.delivered[delivered.len() as int] == delivered2[delivered.len() as int]);
            } else {
                assert(d.events[i] == rest.events[i - 1]);
            }
        }
    } else {
        if next == u64::MAX {
            if buffer.dom().contains(next) {
                assert(next <= b);
                assert(false);
            }
        }
    }
}

/// One active step keeps the stream well formed, emits events for this
/// stream only, and extends the stream's history by exactly those events.
pub proof fn lemma_active_step_wf<T>(s: StreamState<T>, f: Frame<T>, cap: Option<usize>)
    requires
        wf_stream(s, cap),
        s is Active,
        f.message_id < u64::MAX,
    ensures
        ({
            let r = active_step(s, f, cap);
            &&& wf_stream(r.state, cap)
            &&& all_for(r.events, f.stream_id)
            &&& history_for(f.stream_id, r.state) == history_for(f.stream_id, s) + r.events
        }),
{
    let sid = f.stream_id;
    let mid = f.message_id;
    let r = active_step(s, f, cap);
    match s {
        StreamState::Active { next_expected, fin, max_seen, buffer, delivered } => {
            match f.body {
                FrameBody::Fin => {
                    if fin is Some || mid < max_seen {
                        assert(history_for(sid, r.state) =~= history_for(sid, s) + r.events);
                    } else if next_expected == mid + 1 {
                        assert(history_for(sid, r.state) =~= history_for(sid, s) + r.events);
                    } else {
                        assert(history_for(sid, r.state) =~= history_for(sid, s) + r.events);
                    }
                },
                FrameBody::Payload(p) => {
                    if fin matches Some(fv) && mid > fv {
                        assert(history_for(sid, r.state) =~= history_for(sid, s) + r.events);
                    } else if mid < next_expected {
                        assert(history_for(sid, r.state) =~= history_for(sid, s) + r.events);
                    } else if mid == next_expected {
                        let bb = max_u64(max_seen, mid);
                        let delivered2 = delivered.push(p);
                        let d = drain(sid, (mid + 1) as u64, buffer, delivered2);
                        lemma_drain(sid, (mid + 1) as u64, buffer, delivered2, bb);
                        lemma_drain_events_for(sid, (mid + 1) as u64, buffer, delivered2);
                        let delivers = seq![
                            StreamEvent::Deliver { stream_id: sid, message_id: mid, payload: p },
                        ] + d.events;
                        // the deliveries recorded in the new state are the old
                        // ones followed by exactly the emitted delivery events
                        assert(deliver_events(sid, d.delivered) =~= deliver_events(sid, delivered)
                            + delivers) by {
                            assert forall|j: int|
                                0 <= j < d.delivered.len() implies deliver_events(
                                sid,
                                d.delivered,
                            )[j] == (deliver_events(sid, delivered) + delivers)[j] by {
                                if j < delivered.len() {
                                    assert(d.delivered[j] == delivered2[j]);
                                } else if j == delivered.len() {
                                    assert(d.delivered[j] == delivered2[j]);
                                    assert(d.delivered[j] == p);
                                } else {
                                    let i = j - delivered.len() - 1;
                                    assert(d.events[i] == (StreamEvent::Deliver {
                                        stream_id: sid,
                                        message_id: ((mid + 1) + i) as u64,
                                        payload: d.delivered[delivered2.len() + i],
                                    }));
                                }
                            }
                        }
                        assert(all_for(delivers, sid)) by {
                            assert forall|i: int|
                                0 <= i < delivers.len() implies (#[trigger] delivers[i]).sid()
                                == sid by {
                                if i > 0 {
                                    assert(delivers[i] == d.events[i - 1]);
                                }
                            }
                        }
                        if fin matches Some(fv) && d.next == fv + 1 {
                            assert(history_for(sid, r.state) =~= history_for(sid, s) + r.events);
                            assert(all_for(r.events, sid)) by {
                                assert forall|i: int|
                                    0 <= i < r.events.len() implies (#[trigger] r.events[i]).sid()
                                    == sid by {
                                    if i < delivers.len() {
                                        assert(r.events[i] == delivers[i]);
                                    }
                                }
                            }
                        } else {
                            assert(history_for(sid, r.state) =~= history_for(sid, s) + r.events);
                        }
                    } else {
                        if buffer.dom().contains(mid) {
                            assert(history_for(sid, r.state) =~= history_for(sid, s) + r.events);
                        } else if cap matches Some(c) && buffer.len() >= c {
                            assert(history_for(sid, r.state) =~= history_for(sid, s) + r.events);
                        } else {
                            assert(buffer.insert(mid, p).len() == buffer.len() + 1) by {
                                assert(buffer.insert(mid, p).dom() == buffer.dom().insert(mid));
                            }
                            assert(history_for(sid, r.state) =~= history_for(sid, s) + r.events);
                        }
                    }
                },
            }
        },
        _ => {},
    }
}

/// One stream step keeps the stream well formed, emits events for this
/// stream only, and extends the stream's history by exactly those events.
pub proof fn lemma_stream_step_wf<T>(s: StreamState<T>, f: Frame<T>, cap: Option<usize>)
    requires
        wf_stream(s, cap),
    ensures
        ({
            let r = stream_step(s, f, cap);
            &&& wf_stream(r.state, cap)
            &&& all_for(r.events, f.stream_id)
            &&& history_for(f.stream_id, r.state) == history_for(f.stream_id, s) + r.events
        }),
{
    let sid = f.stream_id;
    let r = stream_step(s, f, cap);
    if f.message_id == u64::MAX {
        assert(history_for(sid, r.state) =~= history_for(sid, s) + r.events);
    } else {
        match s {
            StreamState::Retired { .. } => {
                assert(history_for(sid, r.state) =~= history_for(sid, s) + r.events);
            },
            StreamState::Unseen => {
                let fresh = fresh_stream::<T>();
                assert(wf_stream(fresh, cap)) by {
                    assert(Map::<u64, T>::empty().dom() =~= Set::<u64>::empty());
                }
                lemma_active_step_wf(fresh, f, cap);
                let r2 = active_step(fresh, f, cap);
                assert(history_for(sid, fresh) =~= seq![
                    StreamEvent::<T>::Announce { stream_id: sid },
                ]);
                assert(history_for(sid, r.state) =~= history_for(sid, s) + r.events);
                assert(all_for(r.events, sid)) by {
                    assert forall|i: int|
                        0 <= i < r.events.len() implies (#[trigger] r.events[i]).sid() == sid by {
                        if i > 0 {
                            assert(r.events[i] == r2.events[i - 1]);
                        }
                    }
                }
            },
            StreamState::Active { .. } => {
                lemma_active_step_wf(s, f, cap);
            },
        }
    }
}

/// A sequence of events that all belong to one stream projects to itself on
/// that stream and to nothing on every other stream.
pub proof fn lemma_project_homogeneous<T>(events: Seq<StreamEvent<T>>, sid: u64, other: u64)
    requires
        all_for(events, sid),
    ensures
        project(events, sid) == events,
        other != sid ==> project(events, other) == Seq::<StreamEvent<T>>::empty(),
    decreases events.len(),
{
    reveal(Seq::filter);
    if events.len() == 0 {
        assert(project(events, sid) =~= events);
        assert(project(events, other) =~= Seq::<StreamEvent<T>>::empty());
    } else {
        let prefix = events.drop_last();
        assert(all_for(prefix, sid)) by {
            assert forall|i: int|
                0 <= i < prefix.len() implies (#[trigger] prefix[i]).sid() == sid by {
                assert(prefix[i] == events[i]);
            }
        }
        lemma_project_homogeneous(prefix, sid, other);
        assert(events[events.len() - 1].sid() == sid);
        assert(project(events, sid) =~= events);
        if other != sid {
            assert(project(events, other) =~= Seq::<StreamEvent<T>>::empty());
        }
    }
}

/// Feeding one frame preserves the central invariant.
pub proof fn lemma_model_step_wf<T>(m: HandlerModel<T>, f: Frame<T>, cap: Option<usize>)
    requires
        wf_model(m, cap),
    ensures
        wf_model(model_step(m, f, cap), cap),
{
    let sid = f.stream_id;
    let r = stream_step(m.states[sid], f, cap);
    lemma_stream_step_wf(m.states[sid], f, cap);
    let m2 = model_step(m, f, cap);
    assert forall|s2: u64| project(m2.trace, s2) == history_for(
        s2,
        #[trigger] m2.states[s2],
    ) by {
        lemma_project_homogeneous(r.events, sid, s2);
        assert((m.trace + r.events).filter(|e: StreamEvent<T>| e.sid() == s2) == m.trace.filter(
            |e: StreamEvent<T>| e.sid() == s2,
        ) + r.events.filter(|e: StreamEvent<T>| e.sid() == s2));
        if s2 == sid {
        } else {
            assert(project(m2.trace, s2) =~= project(m.trace, s2));
        }
    }
}

/// Every reachable model is well formed.
pub proof fn lemma_run_wf<T>(frames: Seq<Frame<T>>, cap: Option<usize>)
    ensures
        wf_model(model_run(frames, cap), cap),
    decreases frames.len(),
{
    reveal(Seq::filter);
    if frames.len() == 0 {
        let m = initial_model::<T>();
        assert forall|sid: u64| project(m.trace, sid) == history_for(
            sid,
            #[trigger] m.states[sid],
        ) by {
            assert(project(m.trace, sid) =~= Seq::<StreamEvent<T>>::empty());
        }
    } else {
        lemma_run_wf(frames.drop_last(), cap);
        lemma_model_step_wf(model_run(frames.drop_last(), cap), frames.last(), cap);
    }
}

/// Locality: what the whole reassembler does to one stream — its final state
/// and the trace projected to it — is exactly what the per-stream machine
/// does when fed only that stream's frames, in their relative order.
pub proof fn lemma_run_projects_to_stream<T>(frames: Seq<Frame<T>>, cap: Option<usize>, sid: u64)
    ensures
        model_run(frames, cap).states[sid] == stream_run(frames_for(frames, sid), cap).state,
        project(model_run(frames, cap).trace, sid) == stream_run(frames_for(frames, sid), cap).events,
    decreases frames.len(),
{
    reveal(Seq::filter);
    if frames.len() == 0 {
        assert(frames_for(frames, sid) =~= Seq::<Frame<T>>::empty());
        assert(project(model_run(frames, cap).trace, sid) =~= Seq::<StreamEvent<T>>::empty());
    } else {
        let f = frames.last();
        let fp = frames.drop_last();
        lemma_run_projects_to_stream(fp, cap, sid);
        let mp = model_run(fp, cap);
        let m = model_run(frames, cap);
        let r = stream_step(mp.states[f.stream_id], f, cap);
        lemma_step_events_for(mp.states[f.stream_id], f, cap);
        lemma_project_homogeneous(r.events, f.stream_id, sid);
        assert((mp.trace + r.events).filter(|e: StreamEvent<T>| e.sid() == sid) == mp.trace.filter(
            |e: StreamEvent<T>| e.sid() == sid,
        ) + r.events.filter(|e: StreamEvent<T>| e.sid() == sid));
        if f.stream_id == sid {
            let g = frames_for(fp, sid);
            assert(frames_for(frames, sid) == g.push(f));
            assert(g.push(f).drop_last() =~= g);
            assert(g.push(f).last() == f);
            assert(stream_run(frames_for(frames, sid), cap).state == r.state);
        } else {
            assert(frames_for(frames, sid) == frames_for(fp, sid));
            assert(project(m.trace, sid) =~= project(mp.trace, sid));
        }
    }
}

/// The events of one stream step all belong to the addressed stream,
/// whatever state the stream is in.
pub proof fn lemma_step_events_for<T>(s: StreamState<T>, f: Frame<T>, cap: Option<usize>)
    ensures
        all_for(stream_step(s, f, cap).events, f.stream_id),
{
    let sid = f.stream_id;
    let mid = f.message_id;
    let r = stream_step(s, f, cap);
    if mid == u64::MAX {
    } else {
        match s {
            StreamState::Retired { .. } => {},
            StreamState::Unseen => {
                lemma_active_step_events_for(fresh_stream::<T>(), f, cap);
                let r2 = active_step(fresh_stream::<T>(), f, cap);
                assert forall|i: int|
                    0 <= i < r.events.len() implies (#[trigger] r.events[i]).sid() == sid by {
                    if i > 0 {
                        assert(r.events[i] == r2.events[i - 1]);
                    }
                }
            },
            StreamState::Active { .. } => {
                lemma_active_step_events_for(s, f, cap);
            },
        }
    }
}

/// The stream ids of the announcement events of a trace, in trace order.
pub open spec fn announce_sids<T>(trace: Seq<StreamEvent<T>>) -> Seq<u64>
    decreases trace.len(),
{
    if trace.len() == 0 {
        Seq::empty()
    } else {
        let p = announce_sids(trace.drop_last());
        if trace.last() is Announce {
            p.push(trace.last().sid())
        } else {
            p
        }
    }
}

/// The streams an input brings into existence, in first-observation order:
/// each stream id once, at the position of its first frame with a usable
/// message id.
pub open spec fn first_observed<T>(frames: Seq<Frame<T>>) -> Seq<u64>
    decreases frames.len(),
{
    if frames.len() == 0 {
        Seq::empty()
    } else {
        let p = first_observed(frames.drop_last());
        let f = frames.last();
        if f.message_id != u64::MAX && !p.contains(f.stream_id) {
            p.push(f.stream_id)
        } else {
            p
        }
    }
}

/// Announcement ids accumulate over concatenation.
pub proof fn lemma_announce_sids_add<T>(a: Seq<StreamEvent<T>>, b: Seq<StreamEvent<T>>)
    ensures
        announce_sids(a + b) == announce_sids(a) + announce_sids(b),
    decreases b.len(),
{
    if b.len() == 0 {
        assert(a + b =~= a);
        assert(announce_sids(a) + announce_sids(b) =~= announce_sids(a));
    } else {
        lemma_announce_sids_add(a, b.drop_last());
        assert((a + b).drop_last() =~= a + b.drop_last());
        assert((a + b).last() == b.last());
        if b.last() is Announce {
            assert(announce_sids(a) + announce_sids(b) =~= (announce_sids(a) + announce_sids(
                b.drop_last(),
            )).push(b.last().sid()));
        }
    }
}

/// A sequence without announcement events contributes no announcement ids.
pub proof fn lemma_announce_sids_none<T>(events: Seq<StreamEvent<T>>)
    requires
        forall|i: int| 0 <= i < events.len() ==> !((#[trigger] events[i]) is Announce),
    ensures
        announce_sids(events) == Seq::<u64>::empty(),
    decreases events.len(),
{
    if events.len() > 0 {
        let prefix = events.drop_last();
        assert forall|i: int| 0 <= i < prefix.len() implies !((#[trigger] prefix[i]) is Announce) by {
            assert(prefix[i] == events[i]);
        }
        lemma_announce_sids_none(prefix);
    }
}

/// An active step announces nothing (announcement happens only on the first
/// frame of a stream) and never leaves the stream unseen again.
pub proof fn lemma_active_step_no_announce<T>(s: StreamState<T>, f: Frame<T>, cap: Option<usize>)
    requires
        s is Active,
    ensures
        forall|i: int|
            0 <= i < active_step(s, f, cap).events.len() ==> !((#[trigger] active_step(
                s,
                f,
                cap,
            ).events[i]) is Announce),
        !(active_step(s, f, cap).state is Unseen),
{
    let sid = f.stream_id;
    let mid = f.message_id;
    let r = active_step(s, f, cap);
    match s {
        StreamState::Active { next_expected, fin, max_seen, buffer, delivered } => {
            match f.body {
                FrameBody::Fin => {},
                FrameBody::Payload(p) => {
                    if fin matches Some(fv) && mid > fv {
                    } else if mid < next_expected {
                    } else if mid == next_expected {
                        let delivered2 = delivered.push(p);
                        let d = drain(sid, (mid + 1) as u64, buffer, delivered2);
                        lemma_drain_events_for(sid, (mid + 1) as u64, buffer, delivered2);
                        let delivers = seq![
                            StreamEvent::Deliver { stream_id: sid, message_id: mid, payload: p },
                        ] + d.events;
                        assert forall|i: int|
                            0 <= i < r.events.len() implies !((#[trigger] r.events[i]) is Announce) by {
                            if i < delivers.len() {
                                assert(r.events[i] == delivers[i]);
                                if i > 0 {
                                    assert(delivers[i] == d.events[i - 1]);
                                }
                            }
                        }
                    } else {
                    }
                },
            }
        },
        _ => {},
    }
}

/// The announcements a run makes are exactly the streams of its input, in
/// first-observation order; and a stream has been observed (its state is no
/// longer unseen) exactly when it stands in that order.
pub proof fn lemma_run_announce_order<T>(frames: Seq<Frame<T>>, cap: Option<usize>)
    ensures
        announce_sids(model_run(frames, cap).trace) == first_observed(frames),
        forall|sid: u64|
            first_observed(frames).contains(sid) <==> !((#[trigger] model_run(
                frames,
                cap,
            ).states[sid]) is Unseen),
    decreases frames.len(),
{
    if frames.len() == 0 {
        let m = initial_model::<T>();
        assert forall|sid: u64|
            first_observed(frames).contains(sid) <==> !((#[trigger] m.states[sid]) is Unseen) by {
            assert(m.states[sid] is Unseen);
            assert(!first_observed(frames).contains(sid));
        }
    } else {
        let f = frames.last();
        let fp = frames.drop_last();
        let sid = f.stream_id;
        lemma_run_announce_order(fp, cap);
        let mp = model_run(fp, cap);
        let m = model_run(frames, cap);
        let r = stream_step(mp.states[sid], f, cap);
        lemma_announce_sids_add(mp.trace, r.events);
        let announced = f.message_id != u64::MAX && mp.states[sid] is Unseen;
        if announced {
            let r2 = active_step(fresh_stream::<T>(), f, cap);
            lemma_active_step_no_announce(fresh_stream::<T>(), f, cap);
            assert(r.events == seq![StreamEvent::<T>::Announce { stream_id: sid }] + r2.events);
            assert(announce_sids(r.events) =~= seq![sid]) by {
                lemma_announce_sids_add(
                    seq![StreamEvent::<T>::Announce { stream_id: sid }],
                    r2.events,
                );
                lemma_announce_sids_none(r2.events);
                assert(seq![StreamEvent::<T>::Announce { stream_id: sid }].drop_last()
                    =~= Seq::<StreamEvent<T>>::empty());
                assert(announce_sids(Seq::<StreamEvent<T>>::empty()) =~= Seq::<u64>::empty());
                assert(announce_sids(seq![StreamEvent::<T>::Announce { stream_id: sid }])
                    =~= seq![sid]);
            }
            assert(announce_sids(m.trace) =~= first_observed(frames)) by {
                assert(!first_observed(fp).contains(sid));
                assert(first_observed(frames) =~= first_observed(fp).push(sid));
            }
            assert(!(r.state is Unseen));
        } else {
            if f.message_id == u64::MAX {
                assert(r.events =~= Seq::<StreamEvent<T>>::empty());
            } else {
                match mp.states[sid] {
                    StreamState::Unseen => {},
                    StreamState::Active { .. } => {
                        lemma_active_step_no_announce(mp.states[sid], f, cap);
                        lemma_announce_sids_none(r.events);
                    },
                    StreamState::Retired { .. } => {
                        assert(r.events =~= Seq::<StreamEvent<T>>::empty());
                    },
                }
            }
            assert(announce_sids(r.events) =~= Seq::<u64>::empty());
            assert(announce_sids(m.trace) =~= announce_sids(mp.trace));
            assert(first_observed(frames) =~= first_observed(fp));
            assert(!(mp.states[sid] is Unseen) ==> !(r.state is Unseen)) by {
                if mp.states[sid] is Active {
                    lemma_active_step_no_announce(mp.states[sid], f, cap);
                }
            }
        }
        assert forall|k: u64|
            first_observed(frames).contains(k) <==> !((#[trigger] m.states[k]) is Unseen) by {
            if k == sid {
                if announced {
                    assert(first_observed(frames) == first_observed(fp).push(sid));
                    assert(first_observed(frames).last() == sid);
                    assert(first_observed(frames).contains(sid));
                }
            } else {
                assert(m.states[k] == mp.states[k]);
                if announced {
                    assert(first_observed(frames) == first_observed(fp).push(sid));
                    assert(first_observed(frames).contains(k) <==> first_observed(fp).contains(
                        k,
                    )) by {
                        if first_observed(frames).contains(k) {
                            let j = choose|j: int|
                                0 <= j < first_observed(frames).len() && first_observed(
                                    frames,
                                )[j] == k;
                            assert(first_observed(fp)[j] == k);
                        }
                        if first_observed(fp).contains(k) {
                            let j = choose|j: int|
                                0 <= j < first_observed(fp).len() && first_observed(fp)[j] == k;
                            assert(first_observed(frames)[j] == k);
                        }
                    }
                }
            }
        }
    }
}

/// The first-observation order holds each stream id at most once.
pub proof fn lemma_first_observed_distinct<T>(frames: Seq<Frame<T>>)
    ensures
        forall|i: int, j: int|
            #![trigger first_observed(frames)[i], first_observed(frames)[j]]
            0 <= i < j < first_observed(frames).len() ==> first_observed(frames)[i]
                != first_observed(frames)[j],
    decreases frames.len(),
{
    if frames.len() > 0 {
        let fp = frames.drop_last();
        let f = frames.last();
        lemma_first_observed_distinct(fp);
        let p = first_observed(fp);
        let q = first_observed(frames);
        if f.message_id != u64::MAX && !p.contains(f.stream_id) {
            assert forall|i: int, j: int|
                #![trigger q[i], q[j]]
                0 <= i < j < q.len() implies q[i] != q[j] by {
                if j == q.len() - 1 {
                    assert(q[i] == p[i]);
                    if p[i] == f.stream_id {
                        assert(p.contains(f.stream_id));
                    }
                }
            }
        }
    }
}

/// The events of one active step all belong to the addressed stream.
pub proof fn lemma_active_step_events_for<T>(s: StreamState<T>, f: Frame<T>, cap: Option<usize>)
    ensures
        all_for(active_step(s, f, cap).events, f.stream_id),
{
    let sid = f.stream_id;
    let mid = f.message_id;
    let r = active_step(s, f, cap);
    match s {
        StreamState::Active { next_expected, fin, max_seen, buffer, delivered } => {
            match f.body {
                FrameBody::Fin => {},
                FrameBody::Payload(p) => {
                    if fin matches Some(fv) && mid > fv {
                    } else if mid < next_expected {
                    } else if mid == next_expected {
                        let delivered2 = delivered.push(p);
                        let d = drain(sid, (mid + 1) as u64, buffer, delivered2);
                        lemma_drain_events_for(sid, (mid + 1) as u64, buffer, delivered2);
                        let delivers = seq![
                            StreamEvent::Deliver { stream_id: sid, message_id: mid, payload: p },
                        ] + d.events;
                        assert forall|i: int|
                            0 <= i < r.events.len() implies (#[trigger] r.events[i]).sid()
                            == sid by {
                            if i < delivers.len() {
                                assert(r.events[i] == delivers[i]);
                                if i > 0 {
                                    assert(delivers[i] == d.events[i - 1]);
                                }
                            }
                        }
                    } else {
                    }
                },
            }
        },
        _ => {},
    }
}

} // verus!
