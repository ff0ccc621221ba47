//! A parallel gzip compression sink.
//!
//! Callers feed byte chunks in order; the sink partitions the stream into
//! blocks, compresses each block as an independent gzip member, and delivers
//! the members downstream in the original input order.

use vstd::prelude::*;

pub mod codec;
pub mod pipeline;
pub mod sink;

pub use codec::{
    gzip_member_of, gzip_members, gzip_stream_of, lemma_empty_input_stream, lemma_flush_boundary,
    lemma_stream_append,
};
pub use pipeline::{
    lemma_backpressure_bound, lemma_members_are_ordered_prefix, lemma_order_preservation,
    lemma_queues_bounded, views_of, Pipeline,
};
pub use sink::{lemma_finish_deterministic, lemma_sink_backpressure, ParGz, ParGzBuilder, BUFSIZE};

verus! {

/// Errors surfaced by the parallel gzip sink.
#[derive(Clone, Copy, Debug, PartialEq, Eq, Structural)]
pub enum ParGzError {
    /// A hand-off was attempted after the receiving end closed.
    ChannelSend,
    /// A downstream write or flush failed, or the runtime could not be built.
    Io,
    /// A worker task could not be joined.
    Join,
    /// An unclassified failure.
    Unknown,
}

} // verus!
