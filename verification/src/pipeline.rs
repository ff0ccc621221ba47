//! The pipeline coordinator state machine.
//!
//! Blocks flow through two bounded queues: an ingest queue of raw blocks
//! waiting for a worker, and an emit queue of compressed members waiting for
//! the downstream writer. The dispatcher drains the ingest queue in order,
//! compresses each block, and enqueues the member onto the emit queue; the
//! writer drains the emit queue in order and hands each member downstream.
//! Both queues hold at most `worker_count` entries, which bounds the work in
//! flight and is the sole backpressure mechanism.

use vstd::prelude::*;
use crate::codec::{compress_block, gzip_member_of, gzip_members};
use crate::ParGzError;

verus! {

/// The mathematical contents of a queue of byte buffers.
pub open spec fn views_of(bs: Seq<Vec<u8>>) -> Seq<Seq<u8>> {
    bs.map_values(|b: Vec<u8>| b@)
}

/// The coordinator state: both hand-off queues, the end-of-input mark, and
/// the first error observed by either task.
pub struct Pipeline {
    num_threads: usize,
    compression_level: u32,
    ingest: Vec<Vec<u8>>,
    emit: Vec<Vec<u8>>,
    closed: bool,
    error: Option<ParGzError>,
    ingested: Ghost<Seq<Seq<u8>>>,
    emitted: Ghost<Seq<Seq<u8>>>,
}

impl Pipeline {
    /// The capacity of each queue: the worker count.
    pub closed spec fn capacity(self) -> int {
        self.num_threads as int
    }

    /// The configured compression level.
    pub closed spec fn level(self) -> int {
        self.compression_level as int
    }

    /// Every block ever accepted from the front end, in order.
    pub closed spec fn blocks_in(self) -> Seq<Seq<u8>> {
        self.ingested@
    }

    /// Every member handed to the downstream writer, in order.
    pub closed spec fn members_out(self) -> Seq<Seq<u8>> {
        self.emitted@
    }

    /// Blocks waiting in the ingest queue.
    pub closed spec fn pending_ingest(self) -> int {
        self.ingest@.len() as int
    }

    /// Members waiting in the emit queue.
    pub closed spec fn pending_emit(self) -> int {
        self.emit@.len() as int
    }

    /// Uncompressed blocks waiting for dispatch plus jobs awaiting emission.
    pub open spec fn in_flight(self) -> int {
        self.pending_ingest() + self.pending_emit()
    }

    /// Whether the producer end of the ingest queue has closed.
    pub closed spec fn is_closed(self) -> bool {
        self.closed
    }

    /// The first failure either task observed, if any.
    pub closed spec fn first_error(self) -> Option<ParGzError> {
        self.error
    }

    /// The blocks that have already been taken off the ingest queue.
    pub closed spec fn dispatched(self) -> Seq<Seq<u8>> {
        self.ingested@.take(self.ingested@.len() - self.ingest@.len())
    }

    /// Well-formedness: both queues respect the capacity, the ingest queue
    /// holds exactly the not-yet-dispatched suffix of the accepted blocks,
    /// and the members emitted so far followed by the members still queued
    /// are exactly the members of the dispatched blocks, in order.
    pub closed spec fn wf(self) -> bool {
        &&& 1 <= self.num_threads
        &&& self.compression_level <= 9
        &&& self.ingest@.len() <= self.num_threads
        &&& self.emit@.len() <= self.num_threads
        &&& self.ingest@.len() <= self.ingested@.len()
        &&& views_of(self.ingest@)
            == self.ingested@.skip(self.ingested@.len() - self.ingest@.len())
        &&& self.emitted@ + views_of(self.emit@)
            == gzip_members(self.dispatched(), self.compression_level as int)
    }

    /// Open a pipeline with both queues empty and bounded by `num_threads`.
    pub fn new(num_threads: usize, compression_level: u32) -> (p: Pipeline)
        requires
            1 <= num_threads,
            compression_level <= 9,
        ensures
            p.wf(),
            p.capacity() == num_threads,
            p.level() == compression_level,
            p.blocks_in() == Seq::<Seq<u8>>::empty(),
            p.members_out() == Seq::<Seq<u8>>::empty(),
            p.pending_ingest() == 0,
            p.pending_emit() == 0,
            !p.is_closed(),
            p.first_error() is None,
    {
        let p = Pipeline {
            num_threads,
            compression_level,
            ingest: Vec::new(),
            emit: Vec::new(),
            closed: false,
            error: None,
            ingested: Ghost(Seq::empty()),
            emitted: Ghost(Seq::empty()),
        };
        proof {
            assert(views_of(p.ingest@) =~= p.ingested@.skip(0));
            assert(p.dispatched() =~= Seq::<Seq<u8>>::empty());
            assert(p.emitted@ + views_of(p.emit@)
                =~= gzip_members(p.dispatched(), compression_level as int));
        }
        p
    }

    /// The configured worker count, which is also each queue's capacity.
    pub fn worker_count(&self) -> (n: usize)
        ensures
            n as int == self.capacity(),
    {
        self.num_threads
    }

    /// How many blocks are waiting in the ingest queue.
    pub fn ingest_len(&self) -> (n: usize)
        ensures
            n as int == self.pending_ingest(),
    {
        self.ingest.len()
    }

    /// How many members are waiting in the emit queue.
    pub fn emit_len(&self) -> (n: usize)
        ensures
            n as int == self.pending_emit(),
    {
        self.emit.len()
    }

    /// The front end hands one block to the ingest queue. The queue must
    /// have room: a full queue blocks the producer, which is the
    /// backpressure this design relies on.
    pub fn send(&mut self, block: Vec<u8>)
        requires
            old(self).wf(),
            !old(self).is_closed(),
            old(self).pending_ingest() < old(self).capacity(),
        ensures
            final(self).wf(),
            final(self).blocks_in() == old(self).blocks_in().push(block@),
            final(self).members_out() == old(self).members_out(),
            final(self).pending_ingest() == old(self).pending_ingest() + 1,
            final(self).pending_emit() == old(self).pending_emit(),
            final(self).capacity() == old(self).capacity(),
            final(self).level() == old(self).level(),
            final(self).is_closed() == old(self).is_closed(),
            final(self).first_error() == old(self).first_error(),
    {
        let ghost old_ingested = self.ingested@;
        let ghost old_ingest = self.ingest@;
        let ghost b = block@;
        self.ingest.push(block);
        proof {
            self.ingested@ = old_ingested.push(b);
            let k = old_ingested.len() - old_ingest.len();
            assert(views_of(self.ingest@) =~= views_of(old_ingest).push(b));
            assert(self.ingested@.skip(k) =~= old_ingested.skip(k).push(b));
            assert(views_of(self.ingest@) =~= self.ingested@.skip(k));
            assert(self.dispatched() =~= old(self).dispatched());
        }
    }

    /// The dispatcher takes the oldest waiting block, submits it to the
    /// worker pool, and enqueues the job's result onto the emit queue in
    /// the same order. The emit queue must have room.
    pub fn dispatch_step(&mut self)
        requires
            old(self).wf(),
            old(self).pending_ingest() > 0,
            old(self).pending_emit() < old(self).capacity(),
        ensures
            final(self).wf(),
            final(self).blocks_in() == old(self).blocks_in(),
            final(self).members_out() == old(self).members_out(),
            final(self).pending_ingest() == old(self).pending_ingest() - 1,
            final(self).pending_emit() == old(self).pending_emit() + 1,
            final(self).capacity() == old(self).capacity(),
            final(self).level() == old(self).level(),
            final(self).is_closed() == old(self).is_closed(),
            final(self).first_error() == old(self).first_error(),
    {
        let ghost old_ingest = self.ingest@;
        let ghost old_emit = self.emit@;
        let ghost all = self.ingested@;
        let ghost k = all.len() - old_ingest.len();
        let block = self.ingest.remove(0);
        proof {
            assert(block@ == views_of(old_ingest)[0]);
            assert(block@ == all[k]);
        }
        let member = compress_block(block, self.compression_level);
        self.emit.push(member);
        proof {
            let lvl = self.compression_level as int;
            assert(views_of(self.ingest@) =~= all.skip(k + 1)) by {
                assert forall|i: int| 0 <= i < self.ingest@.len()
                    implies views_of(self.ingest@)[i] == all.skip(k + 1)[i] by {
                    assert(views_of(self.ingest@)[i] == views_of(old_ingest)[i + 1]);
                }
            }
            assert(self.emitted@ + views_of(self.emit@)
                =~= gzip_members(all.take(k + 1), lvl)) by {
                assert(views_of(self.emit@) =~= views_of(old_emit).push(member@));
                assert(self.emitted@ + views_of(self.emit@)
                    =~= (self.emitted@ + views_of(old_emit)).push(member@));
                assert(gzip_members(all.take(k + 1), lvl)
                    =~= gzip_members(all.take(k), lvl).push(gzip_member_of(all[k], lvl)));
            }
        }
    }

    /// The writer takes the oldest finished member off the emit queue, to
    /// hand it downstream. The member returned is exactly the gzip member
    /// of the oldest block whose member has not been handed out yet.
    pub fn writer_step(&mut self) -> (member: Vec<u8>)
        requires
            old(self).wf(),
            old(self).pending_emit() > 0,
        ensures
            final(self).wf(),
            old(self).members_out().len() < old(self).blocks_in().len(),
            member@ == gzip_member_of(
                old(self).blocks_in()[old(self).members_out().len() as int],
                old(self).level(),
            ),
            final(self).members_out() == old(self).members_out().push(member@),
            final(self).blocks_in() == old(self).blocks_in(),
            final(self).pending_ingest() == old(self).pending_ingest(),
            final(self).pending_emit() == old(self).pending_emit() - 1,
            final(self).capacity() == old(self).capacity(),
            final(self).level() == old(self).level(),
            final(self).is_closed() == old(self).is_closed(),
            final(self).first_error() == old(self).first_error(),
    {
        let ghost old_emit = self.emit@;
        let ghost old_emitted = self.emitted@;
        let ghost all = self.ingested@;
        let ghost k = all.len() - self.ingest@.len();
        let ghost lvl = self.compression_level as int;
        let member = self.emit.remove(0);
        proof {
            let e = old_emitted.len() as int;
            assert(all.take(k).len() == k);
            assert(old_emitted + views_of(old_emit) == gzip_members(all.take(k), lvl));
            assert(views_of(old_emit).len() == old_emit.len());
            assert(gzip_members(all.take(k), lvl).len() == all.take(k).len());
            assert(old_emitted.len() + old_emit.len() == k);
            assert(e < k);
            assert(member@ == views_of(old_emit)[0]);
            assert((old_emitted + views_of(old_emit))[e] == views_of(old_emit)[0]);
            assert(gzip_members(all.take(k), lvl)[e] == gzip_member_of(all.take(k)[e], lvl));
            assert(all.take(k)[e] == all[e]);
            assert(member@ == gzip_member_of(all[e], lvl));
            self.emitted@ = old_emitted.push(member@);
            assert(self.emitted@ + views_of(self.emit@)
                =~= old_emitted + views_of(old_emit)) by {
                assert forall|i: int| 0 <= i < self.emitted@.len() + self.emit@.len()
                    implies (self.emitted@ + views_of(self.emit@))[i]
                        == (old_emitted + views_of(old_emit))[i] by {
                    if i > e {
                        assert((self.emitted@ + views_of(self.emit@))[i]
                            == views_of(old_emit)[i - e]);
                    }
                }
            }
            assert(self.dispatched() =~= old(self).dispatched());
        }
        member
    }

    /// The front end signals end-of-input: no further block will arrive.
    pub fn close(&mut self)
        requires
            old(self).wf(),
        ensures
            final(self).wf(),
            final(self).is_closed(),
            final(self).blocks_in() == old(self).blocks_in(),
            final(self).members_out() == old(self).members_out(),
            final(self).pending_ingest() == old(self).pending_ingest(),
            final(self).pending_emit() == old(self).pending_emit(),
            final(self).capacity() == old(self).capacity(),
            final(self).level() == old(self).level(),
            final(self).first_error() == old(self).first_error(),
    {
        self.closed = true;
        proof {
            assert(self.dispatched() =~= old(self).dispatched());
        }
    }

    /// A task reports a failure. Only the first failure is kept: a later
    /// one is a downstream symptom of the earlier fault and is dropped.
    pub fn record_error(&mut self, e: ParGzError)
        requires
            old(self).wf(),
        ensures
            final(self).wf(),
            old(self).first_error() is Some ==> final(self).first_error() == old(self).first_error(),
            old(self).first_error() is None ==> final(self).first_error() == Some(e),
            final(self).blocks_in() == old(self).blocks_in(),
            final(self).members_out() == old(self).members_out(),
            final(self).pending_ingest() == old(self).pending_ingest(),
            final(self).pending_emit() == old(self).pending_emit(),
            final(self).capacity() == old(self).capacity(),
            final(self).level() == old(self).level(),
            final(self).is_closed() == old(self).is_closed(),
    {
        if self.error.is_none() {
            self.error = Some(e);
        }
        proof {
            assert(self.dispatched() =~= old(self).dispatched());
        }
    }

    /// The aggregate result: success if and only if neither task failed.
    pub fn result(&self) -> (r: Result<(), ParGzError>)
        ensures
            r == (match self.first_error() {
                Some(e) => Err::<(), ParGzError>(e),
                None => Ok::<(), ParGzError>(()),
            }),
    {
        match self.error {
            Some(e) => Err(e),
            None => Ok(()),
        }
    }
}

/// Basic bounds of a well-formed pipeline: there is at least one worker,
/// the level is a valid DEFLATE level, and neither queue exceeds its
/// capacity.
pub proof fn lemma_queues_bounded(p: Pipeline)
    requires
        p.wf(),
    ensures
        1 <= p.capacity(),
        0 <= p.level() <= 9,
        0 <= p.pending_ingest() <= p.capacity(),
        0 <= p.pending_emit() <= p.capacity(),
        p.members_out().len() + p.pending_emit() + p.pending_ingest() == p.blocks_in().len(),
{
    lemma_members_are_ordered_prefix(p);
}

/// Backpressure bound: the number of uncompressed blocks waiting for a
/// worker plus the number of pending jobs never exceeds twice the worker
/// count, because each of the two hand-off queues is bounded by the worker
/// count.
pub proof fn lemma_backpressure_bound(p: Pipeline)
    requires
        p.wf(),
    ensures
        p.in_flight() <= 2 * p.capacity(),
{
}

/// Order preservation, in progress: at every moment the members handed
/// downstream are exactly the gzip members of the oldest accepted blocks,
/// in order, and every accepted block is either emitted or still in flight.
pub proof fn lemma_members_are_ordered_prefix(p: Pipeline)
    requires
        p.wf(),
    ensures
        p.members_out().len() + p.in_flight() == p.blocks_in().len(),
        p.members_out() == gzip_members(p.blocks_in(), p.level())
            .take(p.members_out().len() as int),
{
    let lvl = p.level();
    let e = p.emitted@.len() as int;
    assert(p.emitted@.len() + p.emit@.len() == gzip_members(p.dispatched(), lvl).len());
    assert forall|i: int| 0 <= i < e
        implies p.emitted@[i] == gzip_members(p.blocks_in(), lvl).take(e)[i] by {
        assert(p.emitted@[i] == (p.emitted@ + views_of(p.emit@))[i]);
        assert(gzip_members(p.dispatched(), lvl)[i]
            == gzip_member_of(p.dispatched()[i], lvl));
        assert(p.dispatched()[i] == p.blocks_in()[i]);
    }
    assert(p.members_out() =~= gzip_members(p.blocks_in(), lvl).take(e));
}

/// Order preservation, at rest: once both queues drain, the members handed
/// downstream are exactly the gzip members of every accepted block, in the
/// order the blocks were accepted.
pub proof fn lemma_order_preservation(p: Pipeline)
    requires
        p.wf(),
        p.pending_ingest() == 0,
        p.pending_emit() == 0,
    ensures
        p.members_out() == gzip_members(p.blocks_in(), p.level()),
{
    lemma_members_are_ordered_prefix(p);
    assert(p.members_out() =~= gzip_members(p.blocks_in(), p.level())
        .take(p.members_out().len() as int));
    assert(gzip_members(p.blocks_in(), p.level()).take(p.members_out().len() as int)
        =~= gzip_members(p.blocks_in(), p.level()));
}

} // verus!
