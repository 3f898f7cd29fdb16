//! The reassembler: one state machine that owns every per-stream record,
//! routes each incoming frame to its record, and answers with the externally
//! visible effects of that frame.
//!
//! The reassembler performs no I/O itself. A thin shell drives it: it awaits
//! the next frame, calls [`StreamHandler::handle_message`], and performs the
//! returned [`StreamEvent`]s on real bounded channels — announce a fresh
//! receiver, push payloads, close a finished stream — blocking wherever a
//! channel is full, which is what propagates back-pressure to the transport.
//!
//! `handle_message` is proved to follow the model step function
//! [`crate::machine::stream_step`] exactly, so every guarantee proved of the
//! model in [`crate::laws`] holds of this executable code.

use std::collections::{BTreeMap, BTreeSet};

use vstd::prelude::*;

use crate::frame::{Frame, StreamEvent, Warning, WarningReason};
use crate::machine::{
    active_step, lemma_model_push, lemma_run_wf, model_run, model_step, stream_step, wf_stream,
    HandlerModel, StreamState,
};
use crate::record::StreamRecord;

verus! {

/// Default capacity of each per-stream outbound channel and of the announce
/// channel.
pub const CHANNEL_BUFFER_LENGTH: usize = 100;

/// Configuration of a reassembler.
#[derive(Clone, Copy, Debug)]
pub struct StreamHandlerConfig {
    /// Capacity of each per-stream outbound channel and of the announce
    /// channel. The reassembler itself never touches a channel; the shell
    /// that owns them applies this capacity when it opens one.
    pub channel_buffer_length: usize,
    /// Optional hard cap on the entries buffered for any single stream.
    /// When a stream would exceed it, the stream is closed early and its
    /// record dropped; downstream sees an early end of stream.
    pub max_buffered_per_stream: Option<usize>,
}

impl Default for StreamHandlerConfig {
    /// Channels of capacity [`CHANNEL_BUFFER_LENGTH`], and no cap on the
    /// per-stream reorder buffers.
    fn default() -> (c: Self)
        ensures
            c.channel_buffer_length == CHANNEL_BUFFER_LENGTH,
            c.max_buffered_per_stream is None,
    {
        StreamHandlerConfig {
            channel_buffer_length: CHANNEL_BUFFER_LENGTH,
            max_buffered_per_stream: None,
        }
    }
}

/// Everything the caller must do in reaction to one frame — in order — plus
/// the warning to log if the frame was dropped.
pub struct HandleOutcome<T> {
    pub events: Vec<StreamEvent<T>>,
    pub warning: Option<Warning>,
}

/// A `StreamHandler` is responsible for reassembling interleaved,
/// out-of-order frames into per-stream, in-order payload sequences.
///
/// It owns one [`StreamRecord`] per live stream, remembers which streams
/// have already retired (a frame for a retired stream is dropped, never
/// re-announced), and keeps — in ghost state — the trace of every event it
/// has emitted, which the proofs in [`crate::laws`] speak about.
pub struct StreamHandler<T> {
    /// Live per-stream records, keyed by stream id.
    pub records: BTreeMap<u64, StreamRecord<T>>,
    /// Streams whose record has been dropped.
    pub retired: BTreeSet<u64>,
    /// Configuration fixed at construction.
    pub config: StreamHandlerConfig,
    /// The final state of each retired stream.
    pub retired_info: Ghost<Map<u64, StreamState<T>>>,
    /// Every event emitted so far, in emission order.
    pub trace: Ghost<Seq<StreamEvent<T>>>,
    /// Every frame processed so far, in arrival order.
    pub frames: Ghost<Seq<Frame<T>>>,
}

impl<T> StreamHandler<T> {
    /// The configured cap on per-stream reorder buffers.
    pub open spec fn cap(self) -> Option<usize> {
        self.config.max_buffered_per_stream
    }

    /// The model state of one stream.
    pub open spec fn state_of(self, sid: u64) -> StreamState<T> {
        if self.records@.dom().contains(sid) {
            self.records@[sid].state()
        } else if self.retired@.contains(sid) {
            self.retired_info@[sid]
        } else {
            StreamState::Unseen
        }
    }

    /// The model of the whole reassembler.
    pub open spec fn model(self) -> HandlerModel<T> {
        HandlerModel {
            states: Map::total(|sid: u64| self.state_of(sid)),
            trace: self.trace@,
        }
    }

    /// The bookkeeping fits together: no stream is both live and retired,
    /// and the final state of every retired stream is on record.
    pub open spec fn structural(self) -> bool {
        &&& forall|sid: u64|
            !(#[trigger] self.records@.dom().contains(sid) && self.retired@.contains(sid))
        &&& forall|sid: u64|
            #[trigger] self.retired@.contains(sid) ==> self.retired_info@.dom().contains(sid)
                && self.retired_info@[sid] is Retired
    }

    /// Well-formedness: the reassembler is exactly what the model says a run
    /// over the frames processed so far produces.
    pub open spec fn wf(self) -> bool {
        &&& self.structural()
        &&& self.model() == model_run(self.frames@, self.cap())
    }

    /// A fresh reassembler: no stream seen, nothing emitted.
    pub fn new(config: StreamHandlerConfig) -> (r: Self)
        ensures
            r.wf(),
            r.config == config,
            r.frames@ == Seq::<Frame<T>>::empty(),
            r.trace@ == Seq::<StreamEvent<T>>::empty(),
            forall|sid: u64| r.state_of(sid) is Unseen,
    {
        let r = StreamHandler {
            records: BTreeMap::new(),
            retired: BTreeSet::new(),
            config,
            retired_info: Ghost(Map::empty()),
            trace: Ghost(Seq::empty()),
            frames: Ghost(Seq::empty()),
        };
        proof {
            let m0 = crate::machine::initial_model::<T>();
            assert forall|sid: u64| r.model().states[sid] == m0.states[sid] by {
                assert(r.state_of(sid) is Unseen);
            }
            assert(r.model().states =~= m0.states);
            assert(r.model() == model_run(r.frames@, r.cap()));
        }
        r
    }

    /// Whether the reassembler currently holds a live record for the stream.
    pub fn is_stream_active(&self, stream_id: u64) -> (r: bool)
        ensures
            r == self.records@.dom().contains(stream_id),
    {
        self.records.contains_key(&stream_id)
    }

    /// Whether the stream's record has been retired — normally after
    /// delivering everything up to its terminal marker, or early after a
    /// reorder buffer overflow.
    pub fn is_stream_retired(&self, stream_id: u64) -> (r: bool)
        ensures
            r == self.retired@.contains(stream_id),
    {
        self.retired.contains(&stream_id)
    }

    /// Number of streams with a live record.
    pub fn active_stream_count(&self) -> (n: usize)
        ensures
            n == self.records@.len(),
    {
        self.records.len()
    }

    /// Process a whole batch of frames in arrival order, collecting each
    /// frame's effects: exactly what calling [`Self::handle_message`] once
    /// per frame does. The asynchronous shell prefers the one-frame call, so
    /// that it can perform each frame's effects (and suspend on full
    /// channels) before taking the next frame.
    pub fn handle_messages(&mut self, frames: Vec<Frame<T>>) -> (outs: Vec<HandleOutcome<T>>)
        requires
            old(self).wf(),
        ensures
            final(self).wf(),
            final(self).config == old(self).config,
            final(self).frames@ == old(self).frames@ + frames@,
            outs@.len() == frames@.len(),
            forall|i: int|
                0 <= i < frames@.len() ==> {
                    let before = model_run(
                        old(self).frames@ + frames@.take(i),
                        old(self).cap(),
                    );
                    let r = stream_step(
                        before.states[frames@[i].stream_id],
                        frames@[i],
                        old(self).cap(),
                    );
                    &&& (#[trigger] outs@[i]).events@ == r.events
                    &&& outs@[i].warning == r.warning
                },
    {
        let ghost all = frames@;
        let ghost base = self.frames@;
        let ghost cap = self.cap();
        let mut frames = frames;
        let mut outs: Vec<HandleOutcome<T>> = Vec::new();
        while frames.len() > 0
            invariant
                self.wf(),
                self.config == old(self).config,
                self.cap() == cap,
                outs@.len() + frames@.len() == all.len(),
                frames@ == all.subrange(outs@.len() as int, all.len() as int),
                self.frames@ == base + all.take(outs@.len() as int),
                forall|i: int|
                    0 <= i < outs@.len() ==> {
                        let before = model_run(base + all.take(i), cap);
                        let r = stream_step(before.states[all[i].stream_id], all[i], cap);
                        &&& (#[trigger] outs@[i]).events@ == r.events
                        &&& outs@[i].warning == r.warning
                    },
            decreases frames@.len(),
        {
            let ghost done = outs@.len() as int;
            let ghost pre = *self;
            let f = frames.remove(0);
            proof {
                assert(f == all[done]);
            }
            let out = self.handle_message(f);
            outs.push(out);
            proof {
                assert(all.take(done).push(all[done]) =~= all.take(done + 1));
                assert(self.frames@ =~= base + all.take(done + 1));
                assert(frames@ =~= all.subrange(done + 1, all.len() as int));
                assert(pre.model() == model_run(base + all.take(done), cap));
                assert(pre.model().states[all[done].stream_id] == pre.state_of(
                    all[done].stream_id,
                ));
            }
        }
        proof {
            assert(all.take(all.len() as int) =~= all);
            assert(self.frames@ =~= base + all);
        }
        outs
    }

    /// Process one frame and hand back its effects.
    ///
    /// The contract pins the result completely: the state of the addressed
    /// stream, the emitted events, and the warning are exactly those of one
    /// model step ([`stream_step`]) on the stream's previous state, and no
    /// other stream changes.
    pub fn handle_message(&mut self, frame: Frame<T>) -> (out: HandleOutcome<T>)
        requires
            old(self).wf(),
        ensures
            final(self).wf(),
            final(self).config == old(self).config,
            final(self).frames@ == old(self).frames@.push(frame),
            ({
                let r = stream_step(old(self).state_of(frame.stream_id), frame, old(self).cap());
                &&& out.events@ == r.events
                &&& out.warning == r.warning
                &&& final(self).trace@ == old(self).trace@ + r.events
                &&& final(self).state_of(frame.stream_id) == r.state
                &&& forall|k: u64|
                    k != frame.stream_id ==> final(self).state_of(k) == old(self).state_of(k)
            }),
    {
        let ghost pre = *self;
        let ghost fr = frame;
        let ghost cap = self.cap();
        let ghost r = stream_step(pre.state_of(frame.stream_id), fr, cap);
        let sid = frame.stream_id;
        let mid = frame.message_id;
        proof {
            lemma_run_wf::<T>(self.frames@, cap);
            assert(pre.model().states[sid] == pre.state_of(sid));
            assert(wf_stream(pre.state_of(sid), cap));
        }
        if mid == u64::MAX {
            self.frames = Ghost(self.frames@.push(fr));
            proof {
                assert(self.trace@ =~= pre.trace@ + r.events);
                lemma_refines_step(pre, *self, fr);
            }
            return HandleOutcome {
                events: Vec::new(),
                warning: Some(
                    Warning { stream_id: sid, message_id: mid, reason: WarningReason::IdOverflow },
                ),
            };
        }
        if self.retired.contains(&sid) {
            self.frames = Ghost(self.frames@.push(fr));
            proof {
                assert(pre.state_of(sid) is Retired);
                assert(self.trace@ =~= pre.trace@ + r.events);
                lemma_refines_step(pre, *self, fr);
            }
            return HandleOutcome {
                events: Vec::new(),
                warning: Some(
                    Warning {
                        stream_id: sid,
                        message_id: mid,
                        reason: WarningReason::RetiredStream,
                    },
                ),
            };
        }
        let mut events: Vec<StreamEvent<T>> = Vec::new();
        let mut rec: StreamRecord<T>;
        match self.records.remove(&sid) {
            Some(found) => {
                rec = found;
                proof {
                    assert(rec.state() == pre.state_of(sid));
                }
            },
            None => {
                events.push(StreamEvent::Announce { stream_id: sid });
                rec = StreamRecord::new();
                proof {
                    assert(pre.state_of(sid) is Unseen);
                    assert(Map::<u64, T>::empty().dom() =~= Set::<u64>::empty());
                    assert(wf_stream(rec.state(), cap));
                }
            },
        }
        let ghost rec0 = rec;
        let mut step = rec.process_frame(frame, self.config.max_buffered_per_stream);
        proof {
            assert(r.state == active_step(rec0.state(), fr, cap).state);
            assert(step.retire == (r.state is Retired));
        }
        if step.retire {
            self.retired.insert(sid);
            self.retired_info = Ghost(self.retired_info@.insert(sid, r.state));
        } else {
            self.records.insert(sid, rec);
        }
        events.append(&mut step.events);
        self.trace = Ghost(self.trace@ + events@);
        self.frames = Ghost(self.frames@.push(fr));
        proof {
            assert(events@ =~= r.events);
            assert(self.state_of(sid) == r.state);
            assert forall|k: u64| k != sid implies self.state_of(k) == pre.state_of(k) by {}
            lemma_refines_step(pre, *self, fr);
        }
        HandleOutcome { events, warning: step.warning }
    }
}

/// A reassembler that performed one more model step on top of a well-formed
/// one is well formed again.
proof fn lemma_refines_step<T>(pre: StreamHandler<T>, post: StreamHandler<T>, frame: Frame<T>)
    requires
        pre.wf(),
        post.structural(),
        post.config == pre.config,
        post.frames@ == pre.frames@.push(frame),
        post.trace@ == pre.trace@ + stream_step(
            pre.state_of(frame.stream_id),
            frame,
            pre.cap(),
        ).events,
        post.state_of(frame.stream_id) == stream_step(
            pre.state_of(frame.stream_id),
            frame,
            pre.cap(),
        ).state,
        forall|k: u64| k != frame.stream_id ==> post.state_of(k) == pre.state_of(k),
    ensures
        post.wf(),
{
    let sid = frame.stream_id;
    let cap = pre.cap();
    let r = stream_step(pre.state_of(sid), frame, cap);
    lemma_model_push(pre.frames@, frame, cap);
    let m2 = model_step(pre.model(), frame, cap);
    assert(pre.model().states[sid] == pre.state_of(sid));
    assert forall|k: u64| post.model().states[k] == m2.states[k] by {
        assert(post.model().states[k] == post.state_of(k));
        if k == sid {
            assert(m2.states[k] == r.state);
        } else {
            assert(m2.states[k] == pre.model().states[k]);
            assert(pre.model().states[k] == pre.state_of(k));
        }
    }
    assert(post.model().states =~= m2.states);
    assert(post.model() == m2);
}

} // verus!
