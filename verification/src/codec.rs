//! The block codec boundary.
//!
//! Each block of the input stream is encoded as one self-contained gzip
//! member (own header, DEFLATE payload, CRC-32 and size trailer), and the
//! output stream is the concatenation of those members in block order.

use vstd::prelude::*;
use vstd::seq_lib::lemma_flatten_concat;
use std::io::Read;
use flate2::bufread::GzEncoder;
use flate2::Compression;

verus! {

/// The bytes of the single gzip member that the block codec produces for
/// `block` at compression level `level`. The codec emits a fixed header
/// (no timestamp, a fixed operating-system byte), so the member depends on
/// the block bytes and the level alone.
pub uninterp spec fn gzip_member_of(block: Seq<u8>, level: int) -> Seq<u8>;

/// The gzip members of a sequence of blocks, one member per block, in order.
pub open spec fn gzip_members(blocks: Seq<Seq<u8>>, level: int) -> Seq<Seq<u8>> {
    blocks.map_values(|b: Seq<u8>| gzip_member_of(b, level))
}

/// The gzip stream formed by the members of `blocks`, concatenated in order.
pub open spec fn gzip_stream_of(blocks: Seq<Seq<u8>>, level: int) -> Seq<u8> {
    gzip_members(blocks, level).flatten()
}

/// Relies on flate2's `bufread::GzEncoder`: reading the encoder to the end
/// yields one complete gzip member whose inflated content is exactly the
/// input block. The default header carries no timestamp and a fixed
/// operating-system byte, so the member is a function of the block bytes
/// and the compression level alone. Reading from an in-memory block cannot
/// fail, so the encoder always produces the member in full.
#[verifier::external_body]
pub(crate) fn compress_block(block: Vec<u8>, level: u32) -> (member: Vec<u8>)
    requires
        level <= 9,
    ensures
        member@ == gzip_member_of(block@, level as int),
{
    let mut member = Vec::with_capacity(block.len());
    let mut gz: GzEncoder<&[u8]> = GzEncoder::new(&block[..], Compression::new(level));
    gz.read_to_end(&mut member)
        .expect("reading an encoder over an in-memory block cannot fail");
    member
}

/// A member boundary is stable: the stream of a concatenation of two block
/// sequences is the stream of the first followed by the stream of the
/// second. In particular, the members produced up to a flush stand
/// unchanged, and in front of, every member produced after it.
pub proof fn lemma_stream_append(xs: Seq<Seq<u8>>, ys: Seq<Seq<u8>>, level: int)
    ensures
        gzip_stream_of(xs + ys, level) == gzip_stream_of(xs, level) + gzip_stream_of(ys, level),
{
    assert(gzip_members(xs + ys, level) =~= gzip_members(xs, level) + gzip_members(ys, level));
    lemma_flatten_concat(gzip_members(xs, level), gzip_members(ys, level));
}

/// Flush semantics: if the blocks shipped up to a flush concatenate to
/// exactly `s`, and the blocks shipped after it concatenate to exactly `t`,
/// then the whole input is `s` followed by `t`, and the stream splits at a
/// member boundary into a stream for `s` followed by a stream for `t`: the
/// boundary induced by the flush falls exactly between `s` and `t`.
pub proof fn lemma_flush_boundary(
    before: Seq<Seq<u8>>,
    after: Seq<Seq<u8>>,
    s: Seq<u8>,
    t: Seq<u8>,
    level: int,
)
    requires
        before.flatten() == s,
        after.flatten() == t,
    ensures
        (before + after).flatten() == s + t,
        gzip_stream_of(before + after, level)
            == gzip_stream_of(before, level) + gzip_stream_of(after, level),
{
    lemma_flatten_concat(before, after);
    lemma_stream_append(before, after, level);
}

/// The stream of a single empty block is exactly the one gzip member of the
/// empty block: a sink that ships nothing but its final, empty flush block
/// produces precisely that member and nothing else.
pub proof fn lemma_empty_input_stream(level: int)
    ensures
        gzip_stream_of(seq![Seq::<u8>::empty()], level)
            == gzip_member_of(Seq::<u8>::empty(), level),
{
    let members = gzip_members(seq![Seq::<u8>::empty()], level);
    assert(members.len() == 1);
    members.lemma_flatten_singleton();
}

} // verus!
