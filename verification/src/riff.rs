//! The reader: header validation and chunk iteration over a byte source.

use vstd::prelude::*;
use vstd::slice::spec_slice_len;
use crate::chunk::total_outer_size;
use crate::chunk::views_of;
use crate::chunk::Chunk;
use crate::chunk::ChunkDataType;
use crate::chunk::ChunkIdentifier;
use crate::chunk::IoResultExt;
use crate::chunk::RiffError;
use crate::chunk::RiffResult;
use crate::grammar::after_chunk;
use crate::grammar::lemma_parsed_chunk;
use crate::grammar::lemma_parsed_chunks;
use crate::grammar::parse_chunk;
use crate::grammar::parse_chunks;
use crate::grammar::parse_header;
use crate::identifiers::LIST;
use crate::identifiers::RIFF;
use crate::input::drain;
use crate::input::read_bytes;
use crate::input::read_slice;
use crate::input::read_u32;

verus! {

/// An opened byte source: what its header declared, and the bytes behind the
/// header, which shrink as chunks are read.
pub struct RiffStream<'a> {
    pub stream: &'a [u8],
    pub form_type: ChunkDataType,
    pub chunks_size: u32,
}

/// The chunks of a byte source, read one by one from its front.
pub struct ChunkIterator<'a, 'b> {
    pub reader: &'a mut &'b [u8],
}

/// Reads the chunk at the front of `reader`. Where no whole chunk stands
/// there, nothing is returned and the source is left empty.
pub fn read_chunk(reader: &mut &[u8]) -> (result: Option<Chunk>)
    ensures
        match result {
            Some(chunk) => parse_chunk(old(reader)@) == Some(chunk@),
            None => parse_chunk(old(reader)@) is None,
        },
        final(reader)@ == after_chunk(old(reader)@),
        result is Some ==> result->0@.outer_size() <= old(reader)@.len() <= usize::MAX,
    decreases old(reader)@.len(), 0nat,
{
    let ghost bytes = reader@;
    proof {
        assert(spec_slice_len(*reader) == bytes.len());
        if parse_chunk(bytes) is Some {
            lemma_parsed_chunk(bytes);
        }
    }
    let chunk_id = match ChunkIdentifier::read_from(reader) {
        Ok(chunk_id) => chunk_id,
        Err(_) => {
            return None;
        },
    };
    let declared = match read_u32(reader) {
        Ok(declared) => declared,
        Err(_) => {
            return None;
        },
    };
    proof {
        assert(bytes.skip(4).take(4) =~= bytes.subrange(4, 8));
        assert(reader@ =~= bytes.skip(8));
    }

    if chunk_id == ChunkIdentifier(LIST) {
        let data_type = match ChunkDataType::read_from(reader) {
            Ok(data_type) => data_type,
            Err(_) => {
                return None;
            },
        };
        proof {
            assert(bytes.skip(8).take(4) =~= bytes.subrange(8, 12));
            assert(reader@ =~= bytes.skip(12));
        }
        if declared < 4 {
            drain(reader);
            return None;
        }
        let mut data: &[u8] = match read_slice(reader, (declared - 4) as usize) {
            Some(data) => data,
            None => {
                return None;
            },
        };
        proof {
            assert(data@ =~= bytes.subrange(12, 8 + declared));
            assert(reader@ =~= bytes.skip(8 + declared));
        }
        let sub_chunks = ChunkIterator::new(&mut data).collect();

        return Some(Chunk::List { data_type, sub_chunks });
    }
    let data = match read_bytes(reader, declared as usize) {
        Some(data) => data,
        None => {
            return None;
        },
    };
    proof {
        assert(data@ =~= bytes.subrange(8, 8 + declared));
        assert(reader@ =~= bytes.skip(8 + declared));
    }

    Some(Chunk::Simple { identifier: chunk_id, data })
}

impl<'a, 'b> ChunkIterator<'a, 'b> {
    /// The chunks of `reader`. The iterator reads from `reader` itself: what
    /// it leaves there is what the caller finds afterwards.
    pub fn new(reader: &'a mut &'b [u8]) -> (chunks: Self)
        ensures
            chunks.reader@ == old(reader)@,
            final(chunks.reader)@ == final(reader)@,
    {
        ChunkIterator { reader }
    }

    /// Reads the next chunk. Where no whole chunk stands at the front of the
    /// source, nothing is returned and the source is left empty, so that
    /// nothing is returned from then on.
    pub fn next(&mut self) -> (result: Option<Chunk>)
        ensures
            match result {
                Some(chunk) => parse_chunk(old(self).reader@) == Some(chunk@),
                None => parse_chunk(old(self).reader@) is None,
            },
            final(self).reader@ == after_chunk(old(self).reader@),
            final(final(self).reader)@ == final(old(self).reader)@,
            result is Some ==> result->0@.outer_size() <= old(self).reader@.len() <= usize::MAX,
        decreases old(self).reader@.len(), 1nat,
    {
        match read_chunk(self.reader) {
            Some(chunk) => Some(chunk),
            None => None,
        }
    }

    /// Reads the chunks that are left, up to the first place where no whole
    /// chunk stands, and leaves the source empty.
    pub fn collect(self) -> (chunks: Vec<Chunk>)
        ensures
            views_of(chunks@) == parse_chunks(old(self.reader)@),
            final(self.reader)@ == Seq::<u8>::empty(),
            total_outer_size(views_of(chunks@)) <= old(self.reader)@.len() <= usize::MAX,
        decreases self.reader@.len(), 2nat,
    {
        proof {
            assert(spec_slice_len(*self.reader) == self.reader@.len());
            lemma_parsed_chunks(self.reader@);
        }
        let mut rest = self;
        let mut chunks: Vec<Chunk> = Vec::new();
        loop
            invariant
                rest.reader@.len() <= self.reader@.len(),
                total_outer_size(parse_chunks(self.reader@)) <= self.reader@.len() <= usize::MAX,
                views_of(chunks@) + parse_chunks(rest.reader@) == parse_chunks(self.reader@),
                final(rest.reader)@ == final(self.reader)@,
            decreases rest.reader@.len(),
        {
            let ghost before = rest.reader@;
            let ghost read = views_of(chunks@);
            match rest.next() {
                Some(chunk) => {
                    chunks.push(chunk);
                    proof {
                        assert(views_of(chunks@) =~= read.push(chunk@));
                        assert(read.push(chunk@) + parse_chunks(rest.reader@) =~= read
                            + parse_chunks(before));
                    }
                },
                None => {
                    proof {
                        assert(views_of(chunks@) + parse_chunks(before) =~= views_of(chunks@));
                    }
                    return chunks;
                },
            }
        }
    }
}

/// Reads and validates the header at the front of `stream`: the container
/// tag, the declared size of the chunk area and the form type.
pub fn read_riff_header(stream: &mut &[u8]) -> (result: RiffResult<(ChunkDataType, u32)>)
    ensures
        result is Ok <==> parse_header(old(stream)@) is Valid,
        result is Ok ==> result->Ok_0.0@ == parse_header(old(stream)@)->form_type
            && result->Ok_0.1 == parse_header(old(stream)@)->chunks_size && final(stream)@ == old(
            stream,
        )@.skip(12),
        result matches Err(RiffError::FileNotRiff) <==> parse_header(old(stream)@) is NotRiff,
        result matches Err(RiffError::IoError(_)) <==> parse_header(old(stream)@) is Truncated,
        parse_header(old(stream)@) is NotRiff ==> final(stream)@ == old(stream)@.skip(4),
        parse_header(old(stream)@) is Truncated ==> final(stream)@ == Seq::<u8>::empty(),
{
    let ghost bytes = stream@;
    let riff_id = ChunkIdentifier::read_from(stream).to_riff_result()?;

    if riff_id != ChunkIdentifier(RIFF) {
        return Err(RiffError::FileNotRiff);
    }
    let chunks_size = read_u32(stream).to_riff_result()?;
    proof {
        assert(bytes.skip(4).take(4) =~= bytes.subrange(4, 8));
    }

    let form_type = ChunkDataType::read_from(stream).to_riff_result()?;
    proof {
        assert(bytes.skip(8).take(4) =~= bytes.subrange(8, 12));
        assert(stream@ =~= bytes.skip(12));
    }

    Ok((form_type, chunks_size))
}

impl<'a> RiffStream<'a> {
    /// Opens a byte source held in memory.
    pub fn open(stream: &'a [u8]) -> (result: RiffResult<Self>)
        ensures
            result is Ok <==> parse_header(stream@) is Valid,
            result is Ok ==> result->Ok_0.form_type@ == parse_header(stream@)->form_type
                && result->Ok_0.chunks_size == parse_header(stream@)->chunks_size
                && result->Ok_0.stream@ == stream@.skip(12),
            result matches Err(RiffError::FileNotRiff) <==> parse_header(stream@) is NotRiff,
            result matches Err(RiffError::IoError(_)) <==> parse_header(stream@) is Truncated,
    {
        let mut stream = stream;
        let (form_type, chunks_size) = read_riff_header(&mut stream)?;

        Ok(Self { form_type, stream, chunks_size })
    }

    /// Gives back what is left of the source.
    pub fn take_stream(self) -> (stream: &'a [u8])
        ensures
            stream@ == self.stream@,
    {
        self.stream
    }

    /// The chunks behind the header. Reading them uses up the source: what the
    /// iterator leaves is what this stream holds afterwards.
    pub fn chunks<'b>(&'b mut self) -> (chunks: ChunkIterator<'b, 'a>)
        ensures
            chunks.reader@ == old(self).stream@,
            final(chunks.reader)@ == final(self).stream@,
            final(self).form_type == old(self).form_type,
            final(self).chunks_size == old(self).chunks_size,
    {
        ChunkIterator::new(&mut self.stream)
    }
}

} // verus!
