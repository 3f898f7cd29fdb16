//! End-to-end tests of the reassembler: the seed scenarios and the
//! frame-level anomalies.

use stream_reassembly::frame::{Frame, FrameBody, StreamEvent, Warning, WarningReason};
use stream_reassembly::handler::{StreamHandler, StreamHandlerConfig};

fn payload(stream_id: u64, message_id: u64, s: &str) -> Frame<String> {
    Frame { stream_id, message_id, body: FrameBody::Payload(s.to_string()) }
}

fn fin(stream_id: u64, message_id: u64) -> Frame<String> {
    Frame { stream_id, message_id, body: FrameBody::Fin }
}

fn new_handler() -> StreamHandler<String> {
    StreamHandler::new(StreamHandlerConfig::default())
}

/// Everything observed while feeding a batch of frames.
struct Observed {
    announces: Vec<u64>,
    delivered: Vec<(u64, u64, String)>,
    closes: Vec<u64>,
    warnings: Vec<Warning>,
}

fn feed(h: &mut StreamHandler<String>, frames: Vec<Frame<String>>) -> Observed {
    let mut obs = Observed { announces: vec![], delivered: vec![], closes: vec![], warnings: vec![] };
    for f in frames {
        let out = h.handle_message(f);
        for e in out.events {
            match e {
                StreamEvent::Announce { stream_id } => obs.announces.push(stream_id),
                StreamEvent::Deliver { stream_id, message_id, payload } => {
                    obs.delivered.push((stream_id, message_id, payload))
                }
                StreamEvent::Close { stream_id } => obs.closes.push(stream_id),
            }
        }
        if let Some(w) = out.warning {
            obs.warnings.push(w);
        }
    }
    obs
}

/// The payload sequence observed on one stream's outbound channel.
fn outbound(obs: &Observed, sid: u64) -> Vec<String> {
    obs.delivered
        .iter()
        .filter(|(s, _, _)| *s == sid)
        .map(|(_, _, p)| p.clone())
        .collect()
}

#[test]
fn in_order_single_stream_no_fin() {
    let mut h = new_handler();
    let obs = feed(
        &mut h,
        vec![payload(1, 0, "a"), payload(1, 1, "b"), payload(1, 2, "c")],
    );
    assert_eq!(obs.announces, vec![1]);
    assert_eq!(outbound(&obs, 1), vec!["a", "b", "c"]);
    assert_eq!(obs.closes, Vec::<u64>::new());
    assert!(obs.warnings.is_empty());
    assert!(h.is_stream_active(1));
    assert!(!h.is_stream_retired(1));
}

#[test]
fn simple_reorder() {
    let mut h = new_handler();
    let obs = feed(
        &mut h,
        vec![payload(1, 2, "c"), payload(1, 0, "a"), payload(1, 1, "b"), fin(1, 2)],
    );
    assert_eq!(obs.announces, vec![1]);
    assert_eq!(outbound(&obs, 1), vec!["a", "b", "c"]);
    assert_eq!(obs.closes, vec![1]);
    assert!(obs.warnings.is_empty());
    assert!(!h.is_stream_active(1));
    assert!(h.is_stream_retired(1));
    assert_eq!(h.active_stream_count(), 0);
}

#[test]
fn fin_first() {
    let mut h = new_handler();
    let obs1 = feed(&mut h, vec![fin(1, 0)]);
    assert_eq!(obs1.announces, vec![1]);
    assert!(obs1.delivered.is_empty());
    assert!(obs1.closes.is_empty());
    assert!(h.is_stream_active(1));
    let obs2 = feed(&mut h, vec![payload(1, 0, "a")]);
    assert_eq!(outbound(&obs2, 1), vec!["a"]);
    assert_eq!(obs2.closes, vec![1]);
    assert!(h.is_stream_retired(1));
}

#[test]
fn empty_stream_stays_closing_until_payload() {
    // A terminal marker with id 0 and no payload leaves the stream in its
    // closing state indefinitely; only the payload with id 0 closes it.
    let mut h = new_handler();
    let obs = feed(&mut h, vec![fin(2, 0)]);
    assert_eq!(obs.announces, vec![2]);
    assert!(obs.delivered.is_empty());
    assert!(obs.closes.is_empty());
    assert!(h.is_stream_active(2));
    let obs2 = feed(&mut h, vec![payload(2, 0, "x")]);
    assert_eq!(outbound(&obs2, 2), vec!["x"]);
    assert_eq!(obs2.closes, vec![2]);
}

#[test]
fn late_duplicate() {
    let mut h = new_handler();
    let obs = feed(&mut h, vec![payload(1, 0, "a"), payload(1, 0, "a'")]);
    assert_eq!(outbound(&obs, 1), vec!["a"]);
    assert_eq!(obs.warnings.len(), 1);
    assert_eq!(
        obs.warnings[0],
        Warning { stream_id: 1, message_id: 0, reason: WarningReason::LateOrReplay }
    );
    assert!(h.is_stream_active(1));
}

#[test]
fn cross_stream_interleave() {
    let mut h = new_handler();
    let obs = feed(
        &mut h,
        vec![
            payload(1, 0, "a"),
            payload(2, 1, "y"),
            payload(1, 1, "b"),
            payload(2, 0, "x"),
            fin(1, 1),
            fin(2, 1),
        ],
    );
    assert_eq!(obs.announces, vec![1, 2]);
    assert_eq!(outbound(&obs, 1), vec!["a", "b"]);
    assert_eq!(outbound(&obs, 2), vec!["x", "y"]);
    assert_eq!(obs.closes, vec![1, 2]);
    assert!(h.is_stream_retired(1));
    assert!(h.is_stream_retired(2));
}

#[test]
fn announce_precedes_first_delivery() {
    let mut h = new_handler();
    let out = h.handle_message(payload(7, 0, "p"));
    assert_eq!(
        out.events,
        vec![
            StreamEvent::Announce { stream_id: 7 },
            StreamEvent::Deliver { stream_id: 7, message_id: 0, payload: "p".to_string() },
        ]
    );
    assert!(out.warning.is_none());
}

#[test]
fn duplicate_fin_dropped() {
    let mut h = new_handler();
    let obs = feed(&mut h, vec![payload(1, 0, "a"), fin(1, 2), fin(1, 1)]);
    assert_eq!(obs.warnings.len(), 1);
    assert_eq!(
        obs.warnings[0],
        Warning { stream_id: 1, message_id: 1, reason: WarningReason::DuplicateFin }
    );
    // The first marker stands: delivering 1 and 2 closes the stream.
    let obs2 = feed(&mut h, vec![payload(1, 1, "b"), payload(1, 2, "c")]);
    assert_eq!(outbound(&obs2, 1), vec!["b", "c"]);
    assert_eq!(obs2.closes, vec![1]);
}

#[test]
fn fin_below_observed_max_dropped() {
    let mut h = new_handler();
    let obs = feed(&mut h, vec![payload(1, 5, "z"), fin(1, 3)]);
    assert_eq!(obs.warnings.len(), 1);
    assert_eq!(
        obs.warnings[0],
        Warning { stream_id: 1, message_id: 3, reason: WarningReason::FinBelowMax }
    );
    // No terminal marker was accepted: one at the observed max still is.
    let obs2 = feed(&mut h, vec![fin(1, 5)]);
    assert!(obs2.warnings.is_empty());
    assert!(h.is_stream_active(1));
}

#[test]
fn message_beyond_fin_dropped() {
    let mut h = new_handler();
    let obs = feed(&mut h, vec![fin(1, 2), payload(1, 5, "z")]);
    assert_eq!(obs.warnings.len(), 1);
    assert_eq!(
        obs.warnings[0],
        Warning { stream_id: 1, message_id: 5, reason: WarningReason::BeyondFin }
    );
}

#[test]
fn duplicate_buffered_dropped() {
    let mut h = new_handler();
    let obs = feed(&mut h, vec![payload(1, 2, "c"), payload(1, 2, "c'")]);
    assert_eq!(obs.warnings.len(), 1);
    assert_eq!(
        obs.warnings[0],
        Warning { stream_id: 1, message_id: 2, reason: WarningReason::DuplicateBuffered }
    );
    // The first buffered payload is the one that is eventually delivered.
    let obs2 = feed(&mut h, vec![payload(1, 0, "a"), payload(1, 1, "b")]);
    assert_eq!(outbound(&obs2, 1), vec!["a", "b", "c"]);
}

#[test]
fn retired_stream_frames_are_dropped() {
    let mut h = new_handler();
    feed(&mut h, vec![payload(1, 0, "a"), fin(1, 0)]);
    assert!(h.is_stream_retired(1));
    let obs = feed(&mut h, vec![payload(1, 0, "again")]);
    assert!(obs.announces.is_empty());
    assert!(obs.delivered.is_empty());
    assert_eq!(obs.warnings.len(), 1);
    assert_eq!(
        obs.warnings[0],
        Warning { stream_id: 1, message_id: 0, reason: WarningReason::RetiredStream }
    );
    assert!(!h.is_stream_active(1));
    assert!(h.is_stream_retired(1));
}

#[test]
fn idempotent_drops_leave_state_unchanged() {
    let mut h = new_handler();
    feed(&mut h, vec![payload(1, 0, "a"), payload(1, 1, "b")]);
    // Repeating already-delivered ids changes nothing and emits nothing.
    let obs = feed(&mut h, vec![payload(1, 0, "a"), payload(1, 1, "b"), payload(1, 0, "a")]);
    assert!(obs.announces.is_empty());
    assert!(obs.delivered.is_empty());
    assert!(obs.closes.is_empty());
    assert_eq!(obs.warnings.len(), 3);
    for w in &obs.warnings {
        assert_eq!(w.reason, WarningReason::LateOrReplay);
    }
    // Processing resumes exactly where it stood.
    let obs2 = feed(&mut h, vec![payload(1, 2, "c")]);
    assert_eq!(outbound(&obs2, 1), vec!["c"]);
}

#[test]
fn interleaving_does_not_change_per_stream_output() {
    // The same per-stream frames under two different interleavings produce
    // the same two outbound sequences.
    let one = vec![payload(1, 1, "b"), payload(1, 0, "a"), fin(1, 1)];
    let two = vec![payload(2, 0, "x"), payload(2, 2, "z"), payload(2, 1, "y"), fin(2, 2)];

    let mut interleave_a: Vec<Frame<String>> = Vec::new();
    interleave_a.extend(one.iter().cloned());
    interleave_a.extend(two.iter().cloned());

    let mut interleave_b: Vec<Frame<String>> = Vec::new();
    interleave_b.push(two[0].clone());
    interleave_b.push(one[0].clone());
    interleave_b.push(two[1].clone());
    interleave_b.push(two[2].clone());
    interleave_b.push(one[1].clone());
    interleave_b.push(one[2].clone());
    interleave_b.push(two[3].clone());

    let mut ha = new_handler();
    let mut hb = new_handler();
    let obs_a = feed(&mut ha, interleave_a);
    let obs_b = feed(&mut hb, interleave_b);
    assert_eq!(outbound(&obs_a, 1), outbound(&obs_b, 1));
    assert_eq!(outbound(&obs_a, 2), outbound(&obs_b, 2));
    assert_eq!(outbound(&obs_a, 1), vec!["a", "b"]);
    assert_eq!(outbound(&obs_a, 2), vec!["x", "y", "z"]);
    assert!(ha.is_stream_retired(1) && hb.is_stream_retired(1));
    assert!(ha.is_stream_retired(2) && hb.is_stream_retired(2));
}

#[test]
fn buffer_overflow_kills_the_stream() {
    let config = StreamHandlerConfig {
        channel_buffer_length: 100,
        max_buffered_per_stream: Some(2),
    };
    let mut h: StreamHandler<String> = StreamHandler::new(config);
    let obs = feed(
        &mut h,
        vec![payload(1, 1, "b"), payload(1, 2, "c"), payload(1, 3, "d")],
    );
    assert_eq!(obs.announces, vec![1]);
    assert!(obs.delivered.is_empty());
    assert_eq!(obs.closes, vec![1]);
    assert_eq!(obs.warnings.len(), 1);
    assert_eq!(
        obs.warnings[0],
        Warning { stream_id: 1, message_id: 3, reason: WarningReason::BufferOverflow }
    );
    assert!(h.is_stream_retired(1));
    // The killed stream stays dead.
    let obs2 = feed(&mut h, vec![payload(1, 0, "a")]);
    assert_eq!(obs2.warnings[0].reason, WarningReason::RetiredStream);
}

#[test]
fn unusable_message_id_dropped() {
    let mut h = new_handler();
    let obs = feed(&mut h, vec![payload(1, u64::MAX, "a")]);
    assert!(obs.announces.is_empty());
    assert_eq!(obs.warnings.len(), 1);
    assert_eq!(
        obs.warnings[0],
        Warning { stream_id: 1, message_id: u64::MAX, reason: WarningReason::IdOverflow }
    );
    assert!(!h.is_stream_active(1));
}

#[test]
fn unusable_fin_id_dropped() {
    let mut h = new_handler();
    let obs = feed(&mut h, vec![fin(1, u64::MAX)]);
    assert!(obs.announces.is_empty());
    assert_eq!(obs.warnings.len(), 1);
    assert_eq!(obs.warnings[0].reason, WarningReason::IdOverflow);
}

#[test]
fn fin_at_observed_max_retires_immediately() {
    // The terminal marker arrives last, when everything is delivered: the
    // stream retires on the marker itself.
    let mut h = new_handler();
    let obs = feed(&mut h, vec![payload(1, 0, "a"), payload(1, 1, "b"), fin(1, 1)]);
    assert_eq!(outbound(&obs, 1), vec!["a", "b"]);
    assert_eq!(obs.closes, vec![1]);
    assert!(h.is_stream_retired(1));
}

#[test]
fn gap_blocks_delivery_until_filled() {
    let mut h = new_handler();
    let obs = feed(&mut h, vec![payload(1, 0, "a"), payload(1, 2, "c"), payload(1, 3, "d")]);
    assert_eq!(outbound(&obs, 1), vec!["a"]);
    let obs2 = feed(&mut h, vec![payload(1, 1, "b")]);
    assert_eq!(outbound(&obs2, 1), vec!["b", "c", "d"]);
}

#[test]
fn batch_processing_equals_one_by_one() {
    let frames = vec![
        payload(1, 2, "c"),
        payload(2, 0, "x"),
        payload(1, 0, "a"),
        payload(1, 1, "b"),
        fin(1, 2),
    ];
    let mut one_by_one = new_handler();
    let obs = feed(&mut one_by_one, frames.clone());

    let mut batched = new_handler();
    let outs = batched.handle_messages(frames);
    let mut batched_events = Vec::new();
    for out in outs {
        batched_events.extend(out.events);
    }
    let mut single_events = Vec::new();
    for (s, m, p) in &obs.delivered {
        single_events.push(StreamEvent::Deliver { stream_id: *s, message_id: *m, payload: p.clone() });
    }
    // Same deliveries in the same order, and the same final stream states.
    let batched_delivers: Vec<_> = batched_events
        .into_iter()
        .filter(|e| matches!(e, StreamEvent::Deliver { .. }))
        .collect();
    assert_eq!(batched_delivers, single_events);
    assert_eq!(batched.is_stream_retired(1), one_by_one.is_stream_retired(1));
    assert_eq!(batched.is_stream_active(2), one_by_one.is_stream_active(2));
}

#[test]
fn default_config() {
    let c = StreamHandlerConfig::default();
    assert_eq!(c.channel_buffer_length, 100);
    assert!(c.max_buffered_per_stream.is_none());
}
