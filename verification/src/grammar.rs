//! The container grammar, as functions on sequences of bytes.
//!
//! ```text
//! File   := Header Chunk*
//! Header := "RIFF" size(u32, little-endian) form-type(4)
//! Chunk  := tag(4) size(u32, little-endian) payload(size bytes)
//! ```
//!
//! The payload of a chunk tagged "LIST" is a data type of four bytes followed
//! by chunks; any other payload is opaque.

use vstd::prelude::*;
use crate::chunk::ChunkView;
use crate::chunk::total_outer_size;
use crate::identifiers::LIST;
use crate::identifiers::RIFF;
use crate::input::le_bytes;
use crate::input::le_u32;
use crate::input::lemma_le_u32_of_le_bytes;

verus! {

/// What the first twelve bytes of a source say.
pub enum HeaderView {
    /// The container tag, a declared size and a form type.
    Valid { form_type: Seq<u8>, chunks_size: nat },
    /// Four bytes that are not the container tag.
    NotRiff,
    /// The source ends inside the header.
    Truncated,
}

/// The header at the front of `bytes`. The tag is judged as soon as its four
/// bytes are there, whatever follows.
pub open spec fn parse_header(bytes: Seq<u8>) -> HeaderView {
    if bytes.len() < 4 {
        HeaderView::Truncated
    } else if bytes.take(4) != RIFF@ {
        HeaderView::NotRiff
    } else if bytes.len() < 12 {
        HeaderView::Truncated
    } else {
        HeaderView::Valid {
            form_type: bytes.subrange(8, 12),
            chunks_size: le_u32(bytes.subrange(4, 8)),
        }
    }
}

/// The number of bytes that the chunk at the front of `bytes` occupies, or
/// `None` where no whole chunk stands there: the source ends inside the
/// chunk, or a list declares fewer than the four bytes of its data type.
pub open spec fn chunk_extent(bytes: Seq<u8>) -> Option<nat> {
    if bytes.len() < 8 {
        None
    } else {
        let declared = le_u32(bytes.subrange(4, 8));
        if bytes.take(4) == LIST@ && (bytes.len() < 12 || declared < 4) {
            None
        } else if bytes.len() < 8 + declared {
            None
        } else {
            Some(8 + declared)
        }
    }
}

/// The chunk at the front of `bytes`. The children of a list are the chunks
/// of its own payload and of nothing beyond it.
pub open spec fn parse_chunk(bytes: Seq<u8>) -> Option<ChunkView>
    decreases bytes.len(), 0nat,
{
    match chunk_extent(bytes) {
        None => None,
        Some(extent) => if bytes.take(4) == LIST@ {
            Some(
                ChunkView::List {
                    data_type: bytes.subrange(8, 12),
                    sub_chunks: parse_chunks(bytes.subrange(12, extent as int)),
                },
            )
        } else {
            Some(
                ChunkView::Simple {
                    identifier: bytes.take(4),
                    data: bytes.subrange(8, extent as int),
                },
            )
        },
    }
}

/// What is left of `bytes` once the chunk at its front has been read: the
/// bytes behind the chunk, or nothing where no whole chunk stands there.
pub open spec fn after_chunk(bytes: Seq<u8>) -> Seq<u8> {
    match chunk_extent(bytes) {
        None => Seq::empty(),
        Some(extent) => bytes.skip(extent as int),
    }
}

/// The chunks of `bytes`, front to back, up to the first place where no whole
/// chunk stands. What follows that place is not looked at.
pub open spec fn parse_chunks(bytes: Seq<u8>) -> Seq<ChunkView>
    decreases bytes.len(), 1nat,
{
    match chunk_extent(bytes) {
        None => Seq::empty(),
        Some(extent) => seq![parse_chunk(bytes)->0] + parse_chunks(bytes.skip(extent as int)),
    }
}

/// A chunk that the grammar can spell: tags of four bytes, no simple chunk
/// under the tag that marks a list, and payloads whose size fits the length
/// field.
pub open spec fn well_formed(chunk: ChunkView) -> bool
    decreases chunk,
{
    match chunk {
        ChunkView::Simple { identifier, data } => {
            &&& identifier.len() == 4
            &&& identifier != LIST@
            &&& data.len() <= u32::MAX
        },
        ChunkView::List { data_type, sub_chunks } => {
            &&& data_type.len() == 4
            &&& 4 + total_outer_size(sub_chunks) <= u32::MAX
            &&& forall|i: int| 0 <= i < sub_chunks.len() ==> well_formed(#[trigger] sub_chunks[i])
        },
    }
}

/// Whether every chunk of `chunks` is well formed.
pub open spec fn all_well_formed(chunks: Seq<ChunkView>) -> bool {
    forall|i: int| 0 <= i < chunks.len() ==> well_formed(#[trigger] chunks[i])
}

/// The bytes that spell `chunk`.
pub open spec fn encode_chunk(chunk: ChunkView) -> Seq<u8>
    decreases chunk, 0nat,
{
    match chunk {
        ChunkView::Simple { identifier, data } => identifier + le_bytes(data.len()) + data,
        ChunkView::List { data_type, sub_chunks } => LIST@ + le_bytes(
            4 + total_outer_size(sub_chunks),
        ) + data_type + encode_chunks(sub_chunks),
    }
}

/// The bytes that spell `chunks`, one after the other.
pub open spec fn encode_chunks(chunks: Seq<ChunkView>) -> Seq<u8>
    decreases chunks, 1nat,
{
    if chunks.len() == 0 {
        Seq::empty()
    } else {
        encode_chunk(chunks.first()) + encode_chunks(chunks.drop_first())
    }
}

/// The bytes that spell a header.
pub open spec fn encode_header(form_type: Seq<u8>, chunks_size: nat) -> Seq<u8> {
    RIFF@ + le_bytes(chunks_size) + form_type
}

/// The four bytes that spell a number have it as their value, wherever they
/// stand in a longer sequence.
proof fn lemma_size_field(front: Seq<u8>, value: nat, back: Seq<u8>)
    requires
        front.len() == 4,
        value <= u32::MAX,
    ensures
        le_u32((front + le_bytes(value) + back).subrange(4, 8)) == value,
        (front + le_bytes(value) + back).take(4) == front,
        (front + le_bytes(value) + back).skip(8) == back,
        (front + le_bytes(value) + back).len() == 8 + back.len(),
{
    lemma_le_u32_of_le_bytes(value);
    let bytes = front + le_bytes(value) + back;
    assert(bytes.subrange(4, 8) =~= le_bytes(value));
    assert(bytes.take(4) =~= front);
    assert(bytes.skip(8) =~= back);
}

/// A well-formed chunk is spelled in as many bytes as its outer size says.
pub proof fn lemma_encoded_chunk_len(chunk: ChunkView)
    requires
        well_formed(chunk),
    ensures
        encode_chunk(chunk).len() == chunk.outer_size(),
    decreases chunk,
{
    match chunk {
        ChunkView::Simple { identifier, data } => {},
        ChunkView::List { data_type, sub_chunks } => {
            lemma_encoded_chunks_len(sub_chunks);
        },
    }
}

/// Well-formed chunks are spelled in as many bytes as their outer sizes add
/// up to.
pub proof fn lemma_encoded_chunks_len(chunks: Seq<ChunkView>)
    requires
        all_well_formed(chunks),
    ensures
        encode_chunks(chunks).len() == total_outer_size(chunks),
    decreases chunks,
{
    if chunks.len() > 0 {
        lemma_encoded_chunk_len(chunks.first());
        lemma_encoded_chunks_len(chunks.drop_first());
    }
}

/// Reading what spells a well-formed chunk gives that chunk back, whatever
/// follows it, and leaves what follows it.
pub proof fn lemma_parse_encoded_chunk(chunk: ChunkView, rest: Seq<u8>)
    requires
        well_formed(chunk),
    ensures
        chunk_extent(encode_chunk(chunk) + rest) == Some(chunk.outer_size()),
        parse_chunk(encode_chunk(chunk) + rest) == Some(chunk),
        after_chunk(encode_chunk(chunk) + rest) == rest,
    decreases chunk,
{
    let bytes = encode_chunk(chunk) + rest;
    lemma_encoded_chunk_len(chunk);
    match chunk {
        ChunkView::Simple { identifier, data } => {
            lemma_size_field(identifier, data.len(), data + rest);
            assert(bytes =~= identifier + le_bytes(data.len()) + (data + rest));
            assert(bytes.subrange(8, 8 + data.len() as int) =~= data);
            assert(bytes.skip(8 + data.len() as int) =~= rest);
        },
        ChunkView::List { data_type, sub_chunks } => {
            let declared = 4 + total_outer_size(sub_chunks);
            let children = encode_chunks(sub_chunks);
            lemma_encoded_chunks_len(sub_chunks);
            lemma_size_field(LIST@, declared, data_type + children + rest);
            assert(bytes =~= LIST@ + le_bytes(declared) + (data_type + children + rest));
            assert(bytes.subrange(8, 12) =~= data_type);
            assert(bytes.subrange(12, 8 + declared as int) =~= children + Seq::<u8>::empty());
            assert(bytes.skip(8 + declared as int) =~= rest);
            lemma_parse_encoded_chunks(sub_chunks, Seq::empty());
        },
    }
}

/// Reading what spells well-formed chunks gives those chunks back, in their
/// order, whatever follows them, as long as no whole chunk stands at the front
/// of what follows.
pub proof fn lemma_parse_encoded_chunks(chunks: Seq<ChunkView>, rest: Seq<u8>)
    requires
        all_well_formed(chunks),
        chunk_extent(rest) is None,
    ensures
        parse_chunks(encode_chunks(chunks) + rest) == chunks,
    decreases chunks,
{
    let bytes = encode_chunks(chunks) + rest;
    if chunks.len() == 0 {
        assert(bytes =~= rest);
        assert(parse_chunks(bytes) =~= chunks);
    } else {
        let first = chunks.first();
        let tail = chunks.drop_first();
        assert(bytes =~= encode_chunk(first) + (encode_chunks(tail) + rest));
        lemma_parse_encoded_chunk(first, encode_chunks(tail) + rest);
        lemma_parse_encoded_chunks(tail, rest);
        assert(seq![first] + tail =~= chunks);
    }
}

/// No whole chunk stands at the front of a well-formed chunk that was cut
/// short.
pub proof fn lemma_truncated_chunk(chunk: ChunkView, kept: int)
    requires
        well_formed(chunk),
        0 <= kept < encode_chunk(chunk).len(),
    ensures
        chunk_extent(encode_chunk(chunk).take(kept)) is None,
        parse_chunk(encode_chunk(chunk).take(kept)) is None,
{
    let whole = encode_chunk(chunk);
    let bytes = whole.take(kept);
    lemma_encoded_chunk_len(chunk);
    if kept >= 8 {
        assert(bytes.subrange(4, 8) =~= whole.subrange(4, 8));
        assert(bytes.take(4) =~= whole.take(4));
        match chunk {
            ChunkView::Simple { identifier, data } => {
                lemma_size_field(identifier, data.len(), data);
            },
            ChunkView::List { data_type, sub_chunks } => {
                lemma_size_field(
                    LIST@,
                    4 + total_outer_size(sub_chunks),
                    data_type + encode_chunks(sub_chunks),
                );
                assert(whole =~= LIST@ + le_bytes(4 + total_outer_size(sub_chunks)) + (data_type
                    + encode_chunks(sub_chunks)));
            },
        }
    }
}

/// A source that was cut inside a chunk gives the chunks that stand whole
/// before the cut, and no more.
pub proof fn lemma_parse_truncated_chunks(chunks: Seq<ChunkView>, cut: ChunkView, kept: int)
    requires
        all_well_formed(chunks),
        well_formed(cut),
        0 <= kept < encode_chunk(cut).len(),
    ensures
        parse_chunks(encode_chunks(chunks) + encode_chunk(cut).take(kept)) == chunks,
{
    lemma_truncated_chunk(cut, kept);
    lemma_parse_encoded_chunks(chunks, encode_chunk(cut).take(kept));
}

/// Reading what spells well-formed chunks, and nothing else, gives those
/// chunks back: as many, in their order, each with its tag, its payload and
/// its children.
pub proof fn lemma_round_trip(chunks: Seq<ChunkView>)
    requires
        all_well_formed(chunks),
    ensures
        parse_chunks(encode_chunks(chunks)) == chunks,
{
    lemma_parse_encoded_chunks(chunks, Seq::empty());
    assert(encode_chunks(chunks) + Seq::<u8>::empty() =~= encode_chunks(chunks));
}

/// The header of what spells a header is that header, whatever follows it.
pub proof fn lemma_parse_encoded_header(form_type: Seq<u8>, chunks_size: nat, rest: Seq<u8>)
    requires
        form_type.len() == 4,
        chunks_size <= u32::MAX,
    ensures
        parse_header(encode_header(form_type, chunks_size) + rest) == (HeaderView::Valid {
            form_type,
            chunks_size,
        }),
        (encode_header(form_type, chunks_size) + rest).skip(12) == rest,
{
    let bytes = encode_header(form_type, chunks_size) + rest;
    lemma_size_field(RIFF@, chunks_size, form_type + rest);
    assert(bytes =~= RIFF@ + le_bytes(chunks_size) + (form_type + rest));
    assert(bytes.subrange(8, 12) =~= form_type);
    assert(bytes.skip(12) =~= rest);
}

/// Opening what spells a header and well-formed chunks gives that header, and
/// reading on gives those chunks, in their order.
pub proof fn lemma_file_round_trip(form_type: Seq<u8>, chunks_size: nat, chunks: Seq<ChunkView>)
    requires
        form_type.len() == 4,
        chunks_size <= u32::MAX,
        all_well_formed(chunks),
    ensures
        parse_header(encode_header(form_type, chunks_size) + encode_chunks(chunks)) == (
        HeaderView::Valid { form_type, chunks_size }),
        parse_chunks((encode_header(form_type, chunks_size) + encode_chunks(chunks)).skip(12))
            == chunks,
{
    lemma_parse_encoded_header(form_type, chunks_size, encode_chunks(chunks));
    lemma_round_trip(chunks);
}

/// A source that starts with four bytes other than the container tag is not
/// a container, whatever follows them.
pub proof fn lemma_parse_header_rejects(tag: Seq<u8>, rest: Seq<u8>)
    requires
        tag.len() == 4,
        tag != RIFF@,
    ensures
        parse_header(tag + rest) is NotRiff,
{
    assert((tag + rest).take(4) =~= tag);
}

/// A chunk that was read takes no more room than the bytes it was read from,
/// and it is well formed.
pub proof fn lemma_parsed_chunk(bytes: Seq<u8>)
    requires
        parse_chunk(bytes) is Some,
    ensures
        parse_chunk(bytes)->0.outer_size() <= chunk_extent(bytes)->0 <= bytes.len(),
        well_formed(parse_chunk(bytes)->0),
    decreases bytes.len(), 0nat,
{
    let extent = chunk_extent(bytes)->0;
    if bytes.take(4) == LIST@ {
        lemma_parsed_chunks(bytes.subrange(12, extent as int));
    }
}

/// The chunks that were read take no more room than the bytes they were read
/// from, and they are well formed.
pub proof fn lemma_parsed_chunks(bytes: Seq<u8>)
    ensures
        total_outer_size(parse_chunks(bytes)) <= bytes.len(),
        all_well_formed(parse_chunks(bytes)),
    decreases bytes.len(), 1nat,
{
    match chunk_extent(bytes) {
        None => {},
        Some(extent) => {
            let first = parse_chunk(bytes)->0;
            let tail = parse_chunks(bytes.skip(extent as int));
            lemma_parsed_chunk(bytes);
            lemma_parsed_chunks(bytes.skip(extent as int));
            assert((seq![first] + tail).drop_first() =~= tail);
            assert forall|i: int| 0 <= i < (seq![first] + tail).len() implies well_formed(
                #[trigger] (seq![first] + tail)[i],
            ) by {
                if i > 0 {
                    assert((seq![first] + tail)[i] == tail[i - 1]);
                }
            }
        },
    }
}

} // verus!
