//! The user-facing byte sink and its builder.
//!
//! The sink accumulates caller writes in a front-end buffer. When the buffer
//! grows past the configured block size, a block-sized prefix is split off
//! and handed to the pipeline; `flush` ships the whole buffer as one block,
//! and `finish` ships a final block, closes the pipeline, drains it, and
//! returns the downstream sink with the complete gzip stream.

use vstd::prelude::*;
use crate::codec::gzip_stream_of;
use crate::pipeline::{lemma_backpressure_bound, lemma_order_preservation, lemma_queues_bounded, Pipeline};
use crate::ParGzError;

verus! {

/// The default block size: 128 KiB.
pub const BUFSIZE: usize = 131072;

/// Configuration for a [`ParGz`] sink, frozen once `build` is called.
pub struct ParGzBuilder {
    /// The level the blocks are compressed at. Defaults to `3`.
    pub compression_level: u32,
    /// The bytes accumulated before a block is shipped. Defaults to [`BUFSIZE`].
    pub buffer_size: usize,
    /// The downstream sink the gzip stream is written to.
    pub writer: Vec<u8>,
    /// The number of worker threads. Defaults to all usable hardware threads.
    pub num_threads: usize,
    /// The number of usable hardware threads, fixed when the builder is made.
    pub max_threads: usize,
}

/// Relies on num_cpus::get: the number of usable hardware threads of this
/// machine, which is documented to always be at least one.
#[verifier::external_body]
fn available_threads() -> (n: usize)
    ensures
        1 <= n,
{
    num_cpus::get()
}

impl ParGzBuilder {
    /// A valid configuration: a positive block size, a DEFLATE level, and a
    /// worker count between one and the hardware thread count.
    pub open spec fn wf(self) -> bool {
        &&& 1 <= self.buffer_size
        &&& self.compression_level <= 9
        &&& 1 <= self.num_threads <= self.max_threads
    }

    /// Create a builder around a downstream sink, with the documented
    /// defaults: 128 KiB blocks, level 3, one worker per hardware thread.
    pub fn new(writer: Vec<u8>) -> (r: Self)
        ensures
            r.wf(),
            r.buffer_size == BUFSIZE,
            r.compression_level == 3,
            r.num_threads == r.max_threads,
            r.writer@ == writer@,
    {
        let threads = available_threads();
        ParGzBuilder {
            compression_level: 3,
            buffer_size: BUFSIZE,
            writer,
            num_threads: threads,
            max_threads: threads,
        }
    }

    /// Set the bytes accumulated before a block is shipped; must be positive.
    pub fn buffer_size(self, buffer_size: usize) -> (r: Self)
        requires
            self.wf(),
            buffer_size > 0,
        ensures
            r.wf(),
            r.buffer_size == buffer_size,
            r.compression_level == self.compression_level,
            r.num_threads == self.num_threads,
            r.max_threads == self.max_threads,
            r.writer@ == self.writer@,
    {
        let mut r = self;
        r.buffer_size = buffer_size;
        r
    }

    /// Set the compression level; must be a DEFLATE level, 0 through 9.
    pub fn compression_level(self, compression_level: u32) -> (r: Self)
        requires
            self.wf(),
            compression_level <= 9,
        ensures
            r.wf(),
            r.compression_level == compression_level,
            r.buffer_size == self.buffer_size,
            r.num_threads == self.num_threads,
            r.max_threads == self.max_threads,
            r.writer@ == self.writer@,
    {
        let mut r = self;
        r.compression_level = compression_level;
        r
    }

    /// Set the worker count; must be between one and the hardware thread
    /// count the builder was made with.
    pub fn num_threads(self, num_threads: usize) -> (r: Self)
        requires
            self.wf(),
            1 <= num_threads <= self.max_threads,
        ensures
            r.wf(),
            r.num_threads == num_threads,
            r.buffer_size == self.buffer_size,
            r.compression_level == self.compression_level,
            r.max_threads == self.max_threads,
            r.writer@ == self.writer@,
    {
        let mut r = self;
        r.num_threads = num_threads;
        r
    }

    /// Freeze the configuration and return a ready sink: an empty front-end
    /// buffer, an open pipeline with both queues empty, and the downstream
    /// sink holding exactly the bytes it held before.
    pub fn build(self) -> (pg: ParGz)
        requires
            self.wf(),
        ensures
            pg.wf(),
            pg.level() == self.compression_level,
            pg.block_size() == self.buffer_size,
            pg.capacity() == self.num_threads,
            pg.accepted() == Seq::<u8>::empty(),
            pg.shipped() == Seq::<Seq<u8>>::empty(),
            pg.buffered() == Seq::<u8>::empty(),
            pg.preamble() == self.writer@,
            pg.delivered() == self.writer@,
    {
        let pipeline = Pipeline::new(self.num_threads, self.compression_level);
        let ghost w = self.writer@;
        let pg = ParGz {
            buffer: Vec::new(),
            buffer_size: self.buffer_size,
            pipeline,
            out: self.writer,
            accepted: Ghost(Seq::empty()),
            preamble: Ghost(w),
        };
        proof {
            assert(pg.pipeline.blocks_in().flatten() =~= Seq::<u8>::empty());
            assert(pg.pipeline.members_out().flatten() =~= Seq::<u8>::empty());
            assert(pg.out@ =~= pg.preamble@ + pg.pipeline.members_out().flatten());
        }
        pg
    }
}

/// The parallel gzip sink: a front-end buffer feeding the pipeline.
pub struct ParGz {
    buffer: Vec<u8>,
    buffer_size: usize,
    pipeline: Pipeline,
    out: Vec<u8>,
    accepted: Ghost<Seq<u8>>,
    preamble: Ghost<Seq<u8>>,
}

impl ParGz {
    /// Every byte accepted from the caller, in order.
    pub closed spec fn accepted(self) -> Seq<u8> {
        self.accepted@
    }

    /// Every block shipped to the pipeline, in order.
    pub closed spec fn shipped(self) -> Seq<Seq<u8>> {
        self.pipeline.blocks_in()
    }

    /// The bytes accumulated in the front-end buffer, not yet shipped.
    pub closed spec fn buffered(self) -> Seq<u8> {
        self.buffer@
    }

    /// The bytes in the downstream sink.
    pub closed spec fn delivered(self) -> Seq<u8> {
        self.out@
    }

    /// The bytes the downstream sink held before the stream started.
    pub closed spec fn preamble(self) -> Seq<u8> {
        self.preamble@
    }

    /// The configured compression level.
    pub closed spec fn level(self) -> int {
        self.pipeline.level()
    }

    /// The configured block size.
    pub closed spec fn block_size(self) -> int {
        self.buffer_size as int
    }

    /// The configured worker count.
    pub closed spec fn capacity(self) -> int {
        self.pipeline.capacity()
    }

    /// Uncompressed blocks waiting for dispatch plus jobs awaiting emission.
    pub closed spec fn in_flight(self) -> int {
        self.pipeline.in_flight()
    }

    /// The running invariant: the pipeline is open and healthy, the shipped
    /// blocks and the buffer together hold exactly the accepted bytes, and
    /// the downstream sink holds its original bytes followed by the members
    /// emitted so far.
    pub closed spec fn wf(self) -> bool {
        &&& 1 <= self.buffer_size
        &&& self.pipeline.wf()
        &&& !self.pipeline.is_closed()
        &&& self.pipeline.first_error() is None
        &&& self.pipeline.blocks_in().flatten() + self.buffer@ == self.accepted@
        &&& self.out@ == self.preamble@ + self.pipeline.members_out().flatten()
    }

    /// Create a builder to configure a [`ParGz`] sink over `writer`.
    pub fn builder(writer: Vec<u8>) -> (r: ParGzBuilder)
        ensures
            r.wf(),
            r.buffer_size == BUFSIZE,
            r.compression_level == 3,
            r.num_threads == r.max_threads,
            r.writer@ == writer@,
    {
        ParGzBuilder::new(writer)
    }

    /// Hand one finished member downstream: the writer's step.
    fn step_writer(&mut self)
        requires
            old(self).pipeline.wf(),
            old(self).pipeline.pending_emit() > 0,
            old(self).out@ == old(self).preamble@ + old(self).pipeline.members_out().flatten(),
        ensures
            final(self).pipeline.wf(),
            final(self).out@ == final(self).preamble@
                + final(self).pipeline.members_out().flatten(),
            final(self).pipeline.blocks_in() == old(self).pipeline.blocks_in(),
            final(self).pipeline.pending_ingest() == old(self).pipeline.pending_ingest(),
            final(self).pipeline.pending_emit() == old(self).pipeline.pending_emit() - 1,
            final(self).pipeline.capacity() == old(self).pipeline.capacity(),
            final(self).pipeline.level() == old(self).pipeline.level(),
            final(self).pipeline.is_closed() == old(self).pipeline.is_closed(),
            final(self).pipeline.first_error() == old(self).pipeline.first_error(),
            final(self).buffer == old(self).buffer,
            final(self).buffer_size == old(self).buffer_size,
            final(self).accepted == old(self).accepted,
            final(self).preamble == old(self).preamble,
    {
        let ghost members = self.pipeline.members_out();
        let mut m = self.pipeline.writer_step();
        let ghost mv = m@;
        self.out.append(&mut m);
        proof {
            members.lemma_flatten_push(mv);
        }
    }

    /// Make room in the ingest queue, stepping the pipeline if it is full.
    fn make_room(&mut self)
        requires
            old(self).pipeline.wf(),
            old(self).out@ == old(self).preamble@ + old(self).pipeline.members_out().flatten(),
        ensures
            final(self).pipeline.wf(),
            final(self).out@ == final(self).preamble@
                + final(self).pipeline.members_out().flatten(),
            final(self).pipeline.pending_ingest() < final(self).pipeline.capacity(),
            final(self).pipeline.blocks_in() == old(self).pipeline.blocks_in(),
            final(self).pipeline.capacity() == old(self).pipeline.capacity(),
            final(self).pipeline.level() == old(self).pipeline.level(),
            final(self).pipeline.is_closed() == old(self).pipeline.is_closed(),
            final(self).pipeline.first_error() == old(self).pipeline.first_error(),
            final(self).buffer == old(self).buffer,
            final(self).buffer_size == old(self).buffer_size,
            final(self).accepted == old(self).accepted,
            final(self).preamble == old(self).preamble,
    {
        proof {
            lemma_queues_bounded(self.pipeline);
        }
        if self.pipeline.ingest_len() == self.pipeline.worker_count() {
            if self.pipeline.emit_len() == self.pipeline.worker_count() {
                self.step_writer();
            }
            self.pipeline.dispatch_step();
        }
    }

    /// Append the caller's bytes to the front-end buffer. If the buffer then
    /// exceeds the block size, split off exactly one block-sized prefix and
    /// ship it; the remaining bytes stay buffered for later writes or for a
    /// flush. Returns the number of bytes appended, always the whole slice.
    pub fn write(&mut self, buf: &Vec<u8>) -> (n: usize)
        requires
            old(self).wf(),
        ensures
            final(self).wf(),
            n == buf@.len(),
            final(self).accepted() == old(self).accepted() + buf@,
            final(self).level() == old(self).level(),
            final(self).block_size() == old(self).block_size(),
            final(self).capacity() == old(self).capacity(),
            final(self).preamble() == old(self).preamble(),
            old(self).buffered().len() + buf@.len() > old(self).block_size() ==> {
                &&& final(self).shipped() == old(self).shipped().push(
                    (old(self).buffered() + buf@).take(old(self).block_size()))
                &&& final(self).buffered() == (old(self).buffered() + buf@).skip(
                    old(self).block_size())
            },
            old(self).buffered().len() + buf@.len() <= old(self).block_size() ==> {
                &&& final(self).shipped() == old(self).shipped()
                &&& final(self).buffered() == old(self).buffered() + buf@
            },
    {
        let ghost pre = *self;
        let mut i: usize = 0;
        while i < buf.len()
            invariant
                i <= buf.len(),
                self.buffer@ == pre.buffer@ + buf@.take(i as int),
                self.buffer_size == pre.buffer_size,
                self.pipeline == pre.pipeline,
                self.out == pre.out,
                self.accepted == pre.accepted,
                self.preamble == pre.preamble,
            decreases buf.len() - i,
        {
            let byte = buf[i];
            self.buffer.push(byte);
            i += 1;
        }
        proof {
            assert(self.buffer@ =~= pre.buffer@ + buf@);
            self.accepted@ = self.accepted@ + buf@;
        }
        if self.buffer.len() > self.buffer_size {
            let mut tail = self.buffer.split_off(self.buffer_size);
            core::mem::swap(&mut self.buffer, &mut tail);
            let ghost blocks = self.pipeline.blocks_in();
            let ghost bv = tail@;
            self.make_room();
            self.pipeline.send(tail);
            proof {
                blocks.lemma_flatten_push(bv);
                assert(self.pipeline.blocks_in().flatten() + self.buffer@ =~= self.accepted@);
            }
        } else {
            proof {
                assert(self.pipeline.blocks_in().flatten() + self.buffer@ =~= self.accepted@);
            }
        }
        buf.len()
    }

    /// Ship the entire buffer content, possibly empty, as one block. After a
    /// flush every accepted byte stands in a shipped block, so the member
    /// boundary induced by the flush falls exactly after the bytes accepted
    /// so far.
    pub fn flush(&mut self)
        requires
            old(self).wf(),
        ensures
            final(self).wf(),
            final(self).shipped() == old(self).shipped().push(old(self).buffered()),
            final(self).buffered() == Seq::<u8>::empty(),
            final(self).accepted() == old(self).accepted(),
            final(self).shipped().flatten() == final(self).accepted(),
            final(self).level() == old(self).level(),
            final(self).block_size() == old(self).block_size(),
            final(self).capacity() == old(self).capacity(),
            final(self).preamble() == old(self).preamble(),
    {
        self.make_room();
        let mut block: Vec<u8> = Vec::new();
        core::mem::swap(&mut self.buffer, &mut block);
        let ghost blocks = self.pipeline.blocks_in();
        let ghost bv = block@;
        self.pipeline.send(block);
        proof {
            blocks.lemma_flatten_push(bv);
            assert(self.pipeline.blocks_in().flatten() + self.buffer@ =~= self.accepted@);
            assert(self.pipeline.blocks_in().flatten() =~= self.accepted@);
        }
    }

    /// Flush the buffer as a final block, close the pipeline, drain both
    /// queues, and return the downstream sink. The sink then holds its
    /// original bytes followed by one gzip member per shipped block, in
    /// block order, and the shipped blocks concatenate to exactly the bytes
    /// the caller wrote.
    pub fn finish(self) -> (r: Result<Vec<u8>, ParGzError>)
        requires
            self.wf(),
        ensures
            match r {
                Ok(out) => {
                    &&& out@ == self.preamble() + gzip_stream_of(
                        self.shipped().push(self.buffered()), self.level())
                    &&& self.shipped().push(self.buffered()).flatten() == self.accepted()
                },
                Err(_) => false,
            },
    {
        let ghost orig = self;
        let mut s = self;
        s.flush();
        s.pipeline.close();
        let ghost all_blocks = s.pipeline.blocks_in();
        proof {
            lemma_queues_bounded(s.pipeline);
        }
        while s.pipeline.ingest_len() > 0
            invariant
                s.pipeline.wf(),
                s.pipeline.first_error() is None,
                s.pipeline.blocks_in() == all_blocks,
                s.pipeline.level() == orig.level(),
                s.preamble@ == orig.preamble(),
                s.out@ == s.preamble@ + s.pipeline.members_out().flatten(),
                0 <= s.pipeline.pending_ingest(),
            decreases s.pipeline.pending_ingest(),
        {
            proof {
                lemma_queues_bounded(s.pipeline);
            }
            if s.pipeline.emit_len() == s.pipeline.worker_count() {
                s.step_writer();
            }
            s.pipeline.dispatch_step();
        }
        proof {
            lemma_queues_bounded(s.pipeline);
        }
        while s.pipeline.emit_len() > 0
            invariant
                s.pipeline.wf(),
                s.pipeline.first_error() is None,
                s.pipeline.blocks_in() == all_blocks,
                s.pipeline.level() == orig.level(),
                s.preamble@ == orig.preamble(),
                s.out@ == s.preamble@ + s.pipeline.members_out().flatten(),
                s.pipeline.pending_ingest() == 0,
                0 <= s.pipeline.pending_emit(),
            decreases s.pipeline.pending_emit(),
        {
            s.step_writer();
        }
        proof {
            lemma_order_preservation(s.pipeline);
        }
        match s.pipeline.result() {
            Ok(()) => Ok(s.out),
            Err(e) => Err(e),
        }
    }
}

/// Backpressure bound at the sink: at any moment the number of uncompressed
/// in-flight blocks plus pending compression jobs is at most twice the
/// worker count, because each of the two hand-off queues is bounded by the
/// worker count.
pub proof fn lemma_sink_backpressure(s: ParGz)
    requires
        s.wf(),
    ensures
        s.in_flight() <= 2 * s.capacity(),
{
    lemma_backpressure_bound(s.pipeline);
}

/// Finish determinism with respect to content: the stream a finished sink
/// delivers is a function of the blocks it shipped, its level, and the bytes
/// its downstream sink held beforehand. Two sinks that agree on those
/// deliver byte-identical streams, whatever order the workers ran in.
pub proof fn lemma_finish_deterministic(a: ParGz, b: ParGz)
    requires
        a.preamble() == b.preamble(),
        a.shipped() == b.shipped(),
        a.buffered() == b.buffered(),
        a.level() == b.level(),
    ensures
        a.preamble() + gzip_stream_of(a.shipped().push(a.buffered()), a.level())
            == b.preamble() + gzip_stream_of(b.shipped().push(b.buffered()), b.level()),
{
}

} // verus!
