//! Per-stream record: the executable state kept for one live stream.

use std::collections::BTreeMap;

use vstd::prelude::*;

use crate::frame::{Frame, FrameBody, StreamEvent, Warning, WarningReason};
use crate::machine::{active_step, drain, fresh_stream, lemma_drain, max_u64, wf_stream, StreamState};

verus! {

/// What one frame did to a record: the events the caller must perform, the
/// warning to log if the frame was dropped, and whether the record is done
/// and must be removed.
pub struct RecordStep<T> {
    pub events: Vec<StreamEvent<T>>,
    pub warning: Option<Warning>,
    pub retire: bool,
}

/// The state the reassembler owns for a single stream: the reorder buffer,
/// the expected-next counter, and the terminal-marker bookkeeping. A record
/// is created lazily on the first frame of a stream, mutated only by the
/// reassembler, and dropped when the stream retires.
pub struct StreamRecord<T> {
    /// Id of the next payload to deliver; initially 0.
    pub next_expected: u64,
    /// Id at which the stream terminates; unset until a terminal marker is
    /// accepted, immutable afterwards.
    pub fin_id: Option<u64>,
    /// Largest message id accepted on this stream, used to validate the
    /// placement of a terminal marker.
    pub max_seen: u64,
    /// Payloads that arrived out of order, keyed by message id and iterated
    /// in ascending order.
    pub buffer: BTreeMap<u64, T>,
    /// The payloads delivered so far, in delivery order.
    pub delivered: Ghost<Seq<T>>,
}

impl<T> StreamRecord<T> {
    /// The model state this record stands for.
    pub open spec fn state(self) -> StreamState<T> {
        StreamState::Active {
            next_expected: self.next_expected,
            fin: self.fin_id,
            max_seen: self.max_seen,
            buffer: self.buffer@,
            delivered: self.delivered@,
        }
    }

    /// A fresh record: nothing delivered, nothing buffered, no terminal
    /// marker yet.
    pub fn new() -> (r: Self)
        ensures
            r.state() == fresh_stream::<T>(),
    {
        StreamRecord {
            next_expected: 0,
            fin_id: None,
            max_seen: 0,
            buffer: BTreeMap::new(),
            delivered: Ghost(Seq::empty()),
        }
    }

    /// Park an out-of-order payload in the reorder buffer.
    pub fn insert_buffered(&mut self, id: u64, payload: T)
        requires
            !old(self).buffer@.dom().contains(id),
        ensures
            final(self).buffer@ == old(self).buffer@.insert(id, payload),
            final(self).next_expected == old(self).next_expected,
            final(self).fin_id == old(self).fin_id,
            final(self).max_seen == old(self).max_seen,
            final(self).delivered == old(self).delivered,
    {
        self.buffer.insert(id, payload);
    }

    /// Take the buffered payload with the given id out of the reorder
    /// buffer, if it is there.
    pub fn pop_buffered(&mut self, id: u64) -> (r: Option<T>)
        ensures
            final(self).buffer@ == old(self).buffer@.remove(id),
            (r matches Some(p) ==> old(self).buffer@.dom().contains(id) && old(self).buffer@[id]
                == p),
            r is None ==> !old(self).buffer@.dom().contains(id),
            final(self).next_expected == old(self).next_expected,
            final(self).fin_id == old(self).fin_id,
            final(self).max_seen == old(self).max_seen,
            final(self).delivered == old(self).delivered,
    {
        self.buffer.remove(&id)
    }

    /// Whether the record has served its purpose: a terminal marker was
    /// accepted and every payload up to it has been delivered. Such a record
    /// is removed and its stream's outbound channel closed.
    pub fn is_retired(&self) -> (r: bool)
        ensures
            r == (self.fin_id matches Some(f) && self.next_expected == f + 1),
    {
        match self.fin_id {
            None => false,
            Some(f) => f < u64::MAX && self.next_expected == f + 1,
        }
    }

    /// Advance the record by one frame, following the per-stream machine
    /// ([`active_step`]) to the letter: accept or reject a terminal marker,
    /// deliver the expected payload and drain the buffer behind it, or park
    /// an out-of-order payload.
    pub fn process_frame(&mut self, frame: Frame<T>, cap: Option<usize>) -> (out: RecordStep<T>)
        requires
            wf_stream(old(self).state(), cap),
            frame.message_id < u64::MAX,
        ensures
            ({
                let r = active_step(old(self).state(), frame, cap);
                &&& out.events@ == r.events
                &&& out.warning == r.warning
                &&& out.retire == (r.state is Retired)
                &&& !out.retire ==> final(self).state() == r.state
            }),
    {
        let sid = frame.stream_id;
        let mid = frame.message_id;
        let ghost pre = self.state();
        let ghost r = active_step(pre, frame, cap);
        let mut events: Vec<StreamEvent<T>> = Vec::new();
        match frame.body {
            FrameBody::Fin => {
                if self.fin_id.is_some() {
                    RecordStep {
                        events,
                        warning: Some(
                            Warning {
                                stream_id: sid,
                                message_id: mid,
                                reason: WarningReason::DuplicateFin,
                            },
                        ),
                        retire: false,
                    }
                } else if mid < self.max_seen {
                    RecordStep {
                        events,
                        warning: Some(
                            Warning {
                                stream_id: sid,
                                message_id: mid,
                                reason: WarningReason::FinBelowMax,
                            },
                        ),
                        retire: false,
                    }
                } else if self.next_expected == mid + 1 {
                    events.push(StreamEvent::Close { stream_id: sid });
                    proof {
                        assert(events@ =~= seq![StreamEvent::<T>::Close { stream_id: sid }]);
                    }
                    RecordStep { events, warning: None, retire: true }
                } else {
                    self.fin_id = Some(mid);
                    self.max_seen = mid;
                    RecordStep { events, warning: None, retire: false }
                }
            },
            FrameBody::Payload(p) => {
                let beyond_fin = match self.fin_id {
                    Some(fv) => mid > fv,
                    None => false,
                };
                if beyond_fin {
                    RecordStep {
                        events,
                        warning: Some(
                            Warning {
                                stream_id: sid,
                                message_id: mid,
                                reason: WarningReason::BeyondFin,
                            },
                        ),
                        retire: false,
                    }
                } else if mid < self.next_expected {
                    RecordStep {
                        events,
                        warning: Some(
                            Warning {
                                stream_id: sid,
                                message_id: mid,
                                reason: WarningReason::LateOrReplay,
                            },
                        ),
                        retire: false,
                    }
                } else if mid == self.next_expected {
                    let ghost p0 = p;
                    let ghost buffer0 = self.buffer@;
                    let ghost delivered0 = self.delivered@;
                    let ghost fin0 = self.fin_id;
                    let ghost max0 = self.max_seen;
                    let ghost bb = max_u64(max0, mid);
                    let ghost d = drain(sid, (mid + 1) as u64, buffer0, delivered0.push(p0));
                    proof {
                        lemma_drain(sid, (mid + 1) as u64, buffer0, delivered0.push(p0), bb);
                    }
                    events.push(StreamEvent::Deliver { stream_id: sid, message_id: mid, payload: p });
                    self.delivered = Ghost(self.delivered@.push(p0));
                    self.next_expected = mid + 1;
                    if self.max_seen < mid {
                        self.max_seen = mid;
                    }
                    proof {
                        assert(events@ =~= seq![
                            StreamEvent::Deliver { stream_id: sid, message_id: mid, payload: p0 },
                        ]);
                    }
                    while self.buffer.contains_key(&self.next_expected)
                        invariant
                            self.fin_id == fin0,
                            self.max_seen == bb,
                            max0 <= bb < u64::MAX,
                            mid < self.next_expected,
                            forall|k: u64|
                                #[trigger] buffer0.dom().contains(k) ==> mid < k && k <= max0,
                            forall|k: u64|
                                #[trigger] self.buffer@.dom().contains(k) ==> buffer0.dom().contains(
                                    k,
                                ),
                            self.buffer@.dom().finite(),
                            drain(sid, self.next_expected, self.buffer@, self.delivered@).next
                                == d.next,
                            drain(sid, self.next_expected, self.buffer@, self.delivered@).buffer
                                == d.buffer,
                            drain(sid, self.next_expected, self.buffer@, self.delivered@).delivered
                                == d.delivered,
                            events@ + drain(
                                sid,
                                self.next_expected,
                                self.buffer@,
                                self.delivered@,
                            ).events == seq![
                                StreamEvent::Deliver {
                                    stream_id: sid,
                                    message_id: mid,
                                    payload: p0,
                                },
                            ] + d.events,
                        decreases self.buffer@.dom().len(),
                    {
                        let ghost bufc = self.buffer@;
                        let ghost delc = self.delivered@;
                        let ghost nextc = self.next_expected;
                        let payload = self.pop_buffered(self.next_expected).unwrap();
                        let ghost pl = payload;
                        events.push(
                            StreamEvent::Deliver {
                                stream_id: sid,
                                message_id: self.next_expected,
                                payload,
                            },
                        );
                        self.delivered = Ghost(self.delivered@.push(pl));
                        proof {
                            assert(bufc.dom().contains(nextc));
                            assert(nextc <= max0);
                            assert(bufc[nextc] == pl);
                        }
                        self.next_expected = self.next_expected + 1;
                        proof {
                            assert(self.buffer@ == bufc.remove(nextc));
                            assert(self.buffer@.dom() == bufc.dom().remove(nextc));
                            let cur = drain(sid, nextc, bufc, delc);
                            let rest = drain(
                                sid,
                                self.next_expected,
                                self.buffer@,
                                self.delivered@,
                            );
                            assert(cur.events =~= seq![
                                StreamEvent::Deliver {
                                    stream_id: sid,
                                    message_id: nextc,
                                    payload: pl,
                                },
                            ] + rest.events);
                            assert(events@ + rest.events =~= seq![
                                StreamEvent::Deliver {
                                    stream_id: sid,
                                    message_id: mid,
                                    payload: p0,
                                },
                            ] + d.events);
                        }
                    }
                    proof {
                        let cur = drain(sid, self.next_expected, self.buffer@, self.delivered@);
                        assert(cur.events =~= Seq::<StreamEvent<T>>::empty());
                        assert(events@ + cur.events =~= events@);
                        assert(events@ =~= seq![
                            StreamEvent::Deliver { stream_id: sid, message_id: mid, payload: p0 },
                        ] + d.events);
                        assert(self.next_expected == d.next);
                        assert(self.buffer@ == d.buffer);
                        assert(self.delivered@ == d.delivered);
                    }
                    let retired_now = self.is_retired();
                    if retired_now {
                        events.push(StreamEvent::Close { stream_id: sid });
                        proof {
                            assert(events@ =~= (seq![
                                StreamEvent::Deliver {
                                    stream_id: sid,
                                    message_id: mid,
                                    payload: p0,
                                },
                            ] + d.events) + seq![StreamEvent::<T>::Close { stream_id: sid }]);
                        }
                        RecordStep { events, warning: None, retire: true }
                    } else {
                        proof {
                            assert(self.state() == r.state);
                        }
                        RecordStep { events, warning: None, retire: false }
                    }
                } else if self.buffer.contains_key(&mid) {
                    RecordStep {
                        events,
                        warning: Some(
                            Warning {
                                stream_id: sid,
                                message_id: mid,
                                reason: WarningReason::DuplicateBuffered,
                            },
                        ),
                        retire: false,
                    }
                } else {
                    let at_cap = match cap {
                        Some(c) => self.buffer.len() >= c,
                        None => false,
                    };
                    if at_cap {
                        events.push(StreamEvent::Close { stream_id: sid });
                        proof {
                            assert(events@ =~= seq![StreamEvent::<T>::Close { stream_id: sid }]);
                        }
                        RecordStep {
                            events,
                            warning: Some(
                                Warning {
                                    stream_id: sid,
                                    message_id: mid,
                                    reason: WarningReason::BufferOverflow,
                                },
                            ),
                            retire: true,
                        }
                    } else {
                        self.insert_buffered(mid, p);
                        if self.max_seen < mid {
                            self.max_seen = mid;
                        }
                        proof {
                            assert(self.state() == r.state);
                        }
                        RecordStep { events, warning: None, retire: false }
                    }
                }
            },
        }
    }
}

} // verus!
