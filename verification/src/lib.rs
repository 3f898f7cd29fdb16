//! Ordered stream reassembly for a consensus/mempool peer-to-peer network.
//!
//! Peers broadcast logically ordered sequences of application messages
//! ("streams"), but the transport neither preserves per-stream order nor
//! separates streams. This crate takes the multiplexed, out-of-order frames,
//! buffers them per stream, and hands every stream back as an in-order,
//! gap-free sequence of payloads that ends at a declared terminal marker.
//!
//! The heart of the crate is [`handler::StreamHandler`]: a single-owner state
//! machine that consumes one [`frame::Frame`] at a time and answers with the
//! externally visible effects of that frame ([`frame::StreamEvent`]): announce
//! a newly observed stream, deliver the next payloads in order, or close a
//! completed stream. A thin asynchronous shell performs those effects on real
//! bounded channels; every decision the shell acts on is made, and proved
//! correct, here.
//!
//! [`machine`] holds the mathematical model of the reassembler, and [`laws`]
//! the proofs of its guarantees: per-stream delivery in strictly ascending
//! message-id order, announcement before any delivery, idempotent drops of
//! duplicates, and independence of interleaved streams.

pub mod codec;
pub mod frame;
pub mod handler;
pub mod laws;
pub mod limits;
pub mod machine;
pub mod record;
pub mod transaction;
