//! The guarantees of the reassembler, stated and proved once and for all.
//!
//! Each proof function here holds of every reachable reassembler state (its
//! only requirement beyond the stated hypotheses is well-formedness), for
//! every input the crate accepts — not merely of chosen example runs.

use vstd::prelude::*;

use crate::frame::{Frame, StreamEvent, Warning, WarningReason};
use crate::handler::StreamHandler;
use crate::machine::{
    announce_sids, first_observed, frames_for, history_for, lemma_first_observed_distinct,
    lemma_run_announce_order, lemma_run_projects_to_stream, lemma_run_wf, model_run, project,
    stream_step, wf_stream, StreamState,
};

verus! {

/// Every well-formed reassembler satisfies the model invariant, stream by
/// stream: the state is well formed, and the events emitted so far for the
/// stream are exactly the history its state stands for.
pub proof fn lemma_handler_invariant<T>(h: &StreamHandler<T>, sid: u64)
    requires
        h.wf(),
    ensures
        wf_stream(h.state_of(sid), h.cap()),
        project(h.trace@, sid) == history_for(sid, h.state_of(sid)),
{
    lemma_run_wf::<T>(h.frames@, h.cap());
    assert(h.model().states[sid] == h.state_of(sid));
}

/// **Ordering.** On every stream, the deliveries observed on the outbound
/// channel carry the message ids 0, 1, 2, ... in exactly that order — no
/// gap, no duplicate, no reordering — whatever order the frames arrived in.
/// The i-th event of a stream's history is the delivery of message id
/// `i - 1` (position 0 being the announcement).
pub proof fn lemma_delivery_order<T>(h: &StreamHandler<T>, sid: u64)
    requires
        h.wf(),
    ensures
        ({
            let hist = project(h.trace@, sid);
            &&& forall|i: int|
                0 <= i < hist.len() && (#[trigger] hist[i]) is Deliver ==> hist[i]->message_id == i
                    - 1
            &&& forall|i: int, j: int|
                #![trigger hist[i], hist[j]]
                0 <= i < j < hist.len() && hist[i] is Deliver && hist[j] is Deliver
                    ==> hist[i]->message_id < hist[j]->message_id
        }),
{
    lemma_handler_invariant(h, sid);
    let hist = project(h.trace@, sid);
    assert forall|i: int|
        0 <= i < hist.len() && (#[trigger] hist[i]) is Deliver implies hist[i]->message_id == i
        - 1 by {
        match h.state_of(sid) {
            StreamState::Unseen => {},
            StreamState::Active { delivered, .. } => {
                assert(hist[i] == crate::machine::deliver_events(sid, delivered)[i - 1]);
            },
            StreamState::Retired { delivered, .. } => {
                if i < 1 + delivered.len() {
                    assert(hist[i] == crate::machine::deliver_events(sid, delivered)[i - 1]);
                } else {
                    assert(hist[i] == (StreamEvent::<T>::Close { stream_id: sid }));
                }
            },
        }
    }
}

/// **Announcement precedence.** The first event of every stream is its
/// announcement; every delivery and the final close come strictly after it,
/// so a consumer can always attach before the first payload arrives.
pub proof fn lemma_announce_precedes<T>(h: &StreamHandler<T>, sid: u64)
    requires
        h.wf(),
    ensures
        ({
            let hist = project(h.trace@, sid);
            &&& hist.len() > 0 ==> hist[0] == (StreamEvent::<T>::Announce { stream_id: sid })
            &&& forall|i: int| 0 < i < hist.len() ==> !((#[trigger] hist[i]) is Announce)
        }),
{
    lemma_handler_invariant(h, sid);
    let hist = project(h.trace@, sid);
    assert forall|i: int| 0 < i < hist.len() implies !((#[trigger] hist[i]) is Announce) by {
        match h.state_of(sid) {
            StreamState::Unseen => {},
            StreamState::Active { delivered, .. } => {
                assert(hist[i] == crate::machine::deliver_events(sid, delivered)[i - 1]);
            },
            StreamState::Retired { delivered, .. } => {
                if i < 1 + delivered.len() {
                    assert(hist[i] == crate::machine::deliver_events(sid, delivered)[i - 1]);
                } else {
                    assert(hist[i] == (StreamEvent::<T>::Close { stream_id: sid }));
                }
            },
        }
    }
}

/// **Retirement.** A stream whose record was retired has a history that ends
/// with its one close event; if it retired because its work was complete, it
/// delivered exactly the payloads 0 ..= fin. Its record is gone.
pub proof fn lemma_retirement<T>(h: &StreamHandler<T>, sid: u64)
    requires
        h.wf(),
        h.state_of(sid) is Retired,
    ensures
        !h.records@.dom().contains(sid),
        ({
            let hist = project(h.trace@, sid);
            &&& hist.len() > 0
            &&& hist[hist.len() - 1] == (StreamEvent::<T>::Close { stream_id: sid })
            &&& forall|i: int| 0 <= i < hist.len() - 1 ==> !((#[trigger] hist[i]) is Close)
        }),
        (h.state_of(sid) matches StreamState::Retired { delivered, fin, complete } ==> (complete
            ==> (fin matches Some(f) && delivered.len() == f + 1))),
{
    lemma_handler_invariant(h, sid);
    if h.records@.dom().contains(sid) {
        assert(h.state_of(sid) is Active);
    }
    let hist = project(h.trace@, sid);
    assert forall|i: int| 0 <= i < hist.len() - 1 implies !((#[trigger] hist[i]) is Close) by {
        match h.state_of(sid) {
            StreamState::Retired { delivered, .. } => {
                if 0 < i < 1 + delivered.len() {
                    assert(hist[i] == crate::machine::deliver_events(sid, delivered)[i - 1]);
                }
            },
            _ => {},
        }
    }
}

/// **Announcement order.** Every stream is announced exactly once, and the
/// announcements appear on the announce channel in first-observation order:
/// the i-th announcement belongs to the i-th distinct stream of the input,
/// counting each stream at its first frame with a usable message id.
pub proof fn lemma_announce_order<T>(h: &StreamHandler<T>)
    requires
        h.wf(),
    ensures
        announce_sids(h.trace@) == first_observed(h.frames@),
        forall|i: int, j: int|
            #![trigger announce_sids(h.trace@)[i], announce_sids(h.trace@)[j]]
            0 <= i < j < announce_sids(h.trace@).len() ==> announce_sids(h.trace@)[i]
                != announce_sids(h.trace@)[j],
{
    lemma_run_announce_order::<T>(h.frames@, h.cap());
    lemma_first_observed_distinct::<T>(h.frames@);
    assert(h.model().trace == model_run(h.frames@, h.cap()).trace);
}

/// A retired stream never changes again: the reassembler remembers the
/// retirement, so any further frame for the stream — whatever it carries —
/// is dropped with a warning, re-creates no record, and emits nothing.
pub proof fn lemma_retired_is_final<T>(s: StreamState<T>, f: Frame<T>, cap: Option<usize>)
    requires
        s is Retired,
    ensures
        stream_step(s, f, cap).state == s,
        stream_step(s, f, cap).events == Seq::<StreamEvent<T>>::empty(),
        stream_step(s, f, cap).warning is Some,
{
}

/// **Idempotent drops.** A payload whose message id was already delivered
/// (it lies below `next_expected`) is dropped as a late duplicate: the step
/// leaves the stream's state exactly as it was and emits nothing, however
/// often the duplicate is repeated.
pub proof fn lemma_duplicate_delivered_is_noop<T>(
    s: StreamState<T>,
    f: Frame<T>,
    cap: Option<usize>,
)
    requires
        wf_stream(s, cap),
        s matches StreamState::Active { next_expected, .. } && f.message_id < next_expected,
        f.body is Payload,
    ensures
        stream_step(s, f, cap).state == s,
        stream_step(s, f, cap).events == Seq::<StreamEvent<T>>::empty(),
        stream_step(s, f, cap).warning == Some(
            Warning {
                stream_id: f.stream_id,
                message_id: f.message_id,
                reason: WarningReason::LateOrReplay,
            },
        ),
{
}

/// **Independence.** What a run does to one stream depends only on that
/// stream's own frames, in their relative order: two inputs that interleave
/// the same frames of stream `sid` with anything else — in any permutation
/// of the other streams' frames — leave `sid` in the same state and emit the
/// same event sequence for it.
pub proof fn lemma_interleaving_independence<T>(
    frames1: Seq<Frame<T>>,
    frames2: Seq<Frame<T>>,
    cap: Option<usize>,
    sid: u64,
)
    requires
        frames_for(frames1, sid) == frames_for(frames2, sid),
    ensures
        model_run(frames1, cap).states[sid] == model_run(frames2, cap).states[sid],
        project(model_run(frames1, cap).trace, sid) == project(model_run(frames2, cap).trace, sid),
{
    lemma_run_projects_to_stream(frames1, cap, sid);
    lemma_run_projects_to_stream(frames2, cap, sid);
}

/// **Independence**, stated of two live reassemblers: if both were fed the
/// same subsequence of frames for a stream, they agree on that stream's
/// state and on the events emitted for it.
pub proof fn lemma_handler_independence<T>(
    h1: &StreamHandler<T>,
    h2: &StreamHandler<T>,
    sid: u64,
)
    requires
        h1.wf(),
        h2.wf(),
        h1.cap() == h2.cap(),
        frames_for(h1.frames@, sid) == frames_for(h2.frames@, sid),
    ensures
        h1.state_of(sid) == h2.state_of(sid),
        project(h1.trace@, sid) == project(h2.trace@, sid),
{
    lemma_interleaving_independence(h1.frames@, h2.frames@, h1.cap(), sid);
    assert(h1.model().states[sid] == h1.state_of(sid));
    assert(h2.model().states[sid] == h2.state_of(sid));
}

/// **Back-pressure**, the half the core owns: with a configured cap, no
/// stream ever holds more than `cap` buffered entries, so the memory a
/// stuck stream can pin is bounded. The other half — that a full outbound
/// channel eventually stops the intake — is the shell's: it performs each
/// emitted event on a bounded channel, blocking while the channel is full,
/// before it takes the next frame.
pub proof fn lemma_buffer_bounded<T>(h: &StreamHandler<T>, sid: u64, c: usize)
    requires
        h.wf(),
        h.cap() == Some(c),
    ensures
        h.state_of(sid) matches StreamState::Active { buffer, .. } ==> buffer.len() <= c,
{
    lemma_handler_invariant(h, sid);
}

} // verus!
