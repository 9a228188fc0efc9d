//! The chunk model: tags, chunks, and the sizes they occupy on disk.

use vstd::prelude::*;
use vstd::std_specs::cmp::PartialEqSpecImpl;
use vstd::utf8::decode_utf8;
use vstd::utf8::valid_utf8;
use crate::input::read_tag;

verus! {

/// The four-byte tag that names a chunk.
#[derive(Clone, Debug, Eq, PartialOrd, Ord)]
pub struct ChunkIdentifier(pub [u8; 4]);

/// The four-byte tag that names the kind of data a list or a file holds.
#[derive(Clone, Debug, Eq, PartialOrd, Ord)]
pub struct ChunkDataType(pub [u8; 4]);

/// A whole file as one value: its form type and its top-level chunks.
#[derive(Clone, Debug, PartialEq, Eq, PartialOrd, Ord)]
pub struct FileChunk {
    pub form_type: ChunkDataType,
    pub sub_chunks: Vec<Chunk>,
}

/// One node of a parsed tree.
#[derive(Debug, PartialEq, Eq, PartialOrd, Ord)]
pub enum Chunk {
    /// A tagged blob of bytes.
    Simple { identifier: ChunkIdentifier, data: Vec<u8> },
    /// A tagged sequence of further chunks, in the order they were read.
    List { data_type: ChunkDataType, sub_chunks: Vec<Chunk> },
}

/// Why a byte source could not be opened.
#[derive(Debug)]
pub enum RiffError {
    /// The source failed, or ended, inside the header.
    IoError(std::io::Error),
    /// The source does not start with the container tag.
    FileNotRiff,
}

pub type RiffResult<T> = Result<T, RiffError>;

/// Turns the failure of a read into the error that opening reports.
pub trait IoResultExt<T> {
    fn to_riff_result(self) -> RiffResult<T>;
}

impl<T> IoResultExt<T> for Result<T, std::io::Error> {
    fn to_riff_result(self) -> (result: RiffResult<T>)
        ensures
            self is Ok <==> result is Ok,
            self is Ok ==> result->Ok_0 == self->Ok_0,
            self is Err ==> result == Err::<T, RiffError>(RiffError::IoError(self->Err_0)),
    {
        match self {
            Ok(inner) => Ok(inner),
            Err(io_error) => Err(RiffError::IoError(io_error)),
        }
    }
}

/// The mathematical value of a [`Chunk`]: tags and payloads as sequences of
/// bytes, children as a sequence of values.
pub enum ChunkView {
    Simple { identifier: Seq<u8>, data: Seq<u8> },
    List { data_type: Seq<u8>, sub_chunks: Seq<ChunkView> },
}

impl ChunkView {
    /// Bytes on disk, the eight-byte header included.
    pub open spec fn outer_size(self) -> nat
        decreases self, 0nat,
    {
        match self {
            ChunkView::Simple { identifier, data } => 8 + data.len(),
            ChunkView::List { data_type, sub_chunks } => 12 + total_outer_size(sub_chunks),
        }
    }

    /// Bytes of payload, which is what the length field on disk declares.
    pub open spec fn inner_size(self) -> nat {
        match self {
            ChunkView::Simple { identifier, data } => data.len(),
            ChunkView::List { data_type, sub_chunks } => 4 + total_outer_size(sub_chunks),
        }
    }
}

/// The outer sizes of `chunks`, added up.
pub open spec fn total_outer_size(chunks: Seq<ChunkView>) -> nat
    decreases chunks, 1nat,
{
    if chunks.len() == 0 {
        0
    } else {
        chunks.first().outer_size() + total_outer_size(chunks.drop_first())
    }
}

/// The values of `chunks`, one by one.
pub open spec fn views_of(chunks: Seq<Chunk>) -> Seq<ChunkView>
    decreases chunks, 1nat,
{
    Seq::new(
        chunks.len(),
        |i: int|
            if 0 <= i < chunks.len() {
                chunks[i].view()
            } else {
                arbitrary()
            },
    )
}

impl View for ChunkIdentifier {
    type V = Seq<u8>;

    open spec fn view(&self) -> Seq<u8> {
        self.0@
    }
}

impl View for ChunkDataType {
    type V = Seq<u8>;

    open spec fn view(&self) -> Seq<u8> {
        self.0@
    }
}

impl View for Chunk {
    type V = ChunkView;

    open spec fn view(&self) -> ChunkView
        decreases self, 0nat,
    {
        match self {
            Chunk::Simple { identifier, data } => ChunkView::Simple {
                identifier: identifier@,
                data: data@,
            },
            Chunk::List { data_type, sub_chunks } => ChunkView::List {
                data_type: data_type@,
                sub_chunks: views_of(sub_chunks@),
            },
        }
    }
}

/// Every chunk, simple or list, occupies eight bytes more than its payload.
pub proof fn lemma_outer_size_is_header_plus_inner_size(chunk: ChunkView)
    ensures
        chunk.outer_size() == 8 + chunk.inner_size(),
{
}

/// A simple chunk holds its data and nothing else: its inner size is the
/// length of the data, its outer size eight more.
pub proof fn lemma_simple_sizes(identifier: Seq<u8>, data: Seq<u8>)
    ensures
        (ChunkView::Simple { identifier, data }).inner_size() == data.len(),
        (ChunkView::Simple { identifier, data }).outer_size() == data.len() + 8,
{
}

/// A list occupies its tag and its children, and nothing else: an empty list
/// has an inner size of 4 and an outer size of 12.
pub proof fn lemma_list_sizes(data_type: Seq<u8>, sub_chunks: Seq<ChunkView>)
    ensures
        (ChunkView::List { data_type, sub_chunks }).inner_size() == 4 + total_outer_size(
            sub_chunks,
        ),
        sub_chunks.len() == 0 ==> (ChunkView::List { data_type, sub_chunks }).inner_size() == 4 && (
        ChunkView::List { data_type, sub_chunks }).outer_size() == 12,
{
}

/// Adding one more chunk at the end adds its outer size to the total.
pub proof fn lemma_total_outer_size_push(chunks: Seq<ChunkView>, last: ChunkView)
    ensures
        total_outer_size(chunks.push(last)) == total_outer_size(chunks) + last.outer_size(),
    decreases chunks.len(),
{
    if chunks.len() == 0 {
        assert(chunks.push(last).drop_first() =~= chunks);
    } else {
        lemma_total_outer_size_push(chunks.drop_first(), last);
        assert(chunks.push(last).drop_first() =~= chunks.drop_first().push(last));
    }
}

/// The total of two sequences joined is the sum of their totals.
pub proof fn lemma_total_outer_size_concat(front: Seq<ChunkView>, back: Seq<ChunkView>)
    ensures
        total_outer_size(front + back) == total_outer_size(front) + total_outer_size(back),
    decreases front.len(),
{
    if front.len() == 0 {
        assert(front + back =~= back);
    } else {
        lemma_total_outer_size_concat(front.drop_first(), back);
        assert((front + back).drop_first() =~= front.drop_first() + back);
    }
}

/// The total of a prefix never exceeds the total of the whole sequence.
pub proof fn lemma_total_outer_size_prefix(chunks: Seq<ChunkView>, n: int)
    requires
        0 <= n <= chunks.len(),
    ensures
        total_outer_size(chunks.take(n)) <= total_outer_size(chunks),
{
    lemma_total_outer_size_concat(chunks.take(n), chunks.skip(n));
    assert(chunks.take(n) + chunks.skip(n) =~= chunks);
}

/// The text that `String::from_utf8_lossy` makes of `bytes`.
pub uninterp spec fn utf8_lossy(bytes: Seq<u8>) -> Seq<char>;

/// Calls `String::from_utf8_lossy`, which keeps what is valid UTF-8 and puts
/// U+FFFD in place of each invalid sequence. So bytes that are valid UTF-8
/// give the text they encode, and since nothing is dropped, only an empty
/// input gives an empty text.
#[verifier::external_body]
fn lossy_text(bytes: &[u8]) -> (text: String)
    ensures
        text@ == utf8_lossy(bytes@),
        valid_utf8(bytes@) ==> text@ == decode_utf8(bytes@),
        bytes@.len() > 0 ==> text@.len() > 0,
{
    String::from_utf8_lossy(bytes).into_owned()
}

/// Whether two tags hold the same four bytes.
pub fn same_tag(left: &[u8; 4], right: &[u8; 4]) -> (same: bool)
    ensures
        same <==> left@ == right@,
{
    let same = left[0] == right[0] && left[1] == right[1] && left[2] == right[2] && left[3]
        == right[3];
    proof {
        if same {
            assert(left@ =~= right@);
        }
    }
    same
}

impl PartialEq for ChunkIdentifier {
    fn eq(&self, other: &Self) -> (equal: bool) {
        same_tag(&self.0, &other.0)
    }
}

impl PartialEqSpecImpl for ChunkIdentifier {
    open spec fn obeys_eq_spec() -> bool {
        true
    }

    open spec fn eq_spec(&self, other: &Self) -> bool {
        self@ == other@
    }
}

impl PartialEq for ChunkDataType {
    fn eq(&self, other: &Self) -> (equal: bool) {
        same_tag(&self.0, &other.0)
    }
}

impl PartialEqSpecImpl for ChunkDataType {
    open spec fn obeys_eq_spec() -> bool {
        true
    }

    open spec fn eq_spec(&self, other: &Self) -> bool {
        self@ == other@
    }
}

impl Clone for Chunk {
    /// A copy of the whole tree.
    fn clone(&self) -> (copy: Self)
        ensures
            copy@ == self@,
        decreases self,
    {
        match self {
            Chunk::Simple { identifier, data } => {
                let copy = Chunk::Simple {
                    identifier: ChunkIdentifier(identifier.0),
                    data: data.clone(),
                };
                proof {
                    assert(copy->data@ =~= data@);
                }
                copy
            },
            Chunk::List { data_type, sub_chunks } => {
                let mut copies: Vec<Chunk> = Vec::new();
                let mut i: usize = 0;
                while i < sub_chunks.len()
                    invariant
                        i <= sub_chunks.len(),
                        self is List,
                        self->sub_chunks == *sub_chunks,
                        views_of(copies@) == views_of(sub_chunks@).take(i as int),
                    decreases sub_chunks.len() - i,
                {
                    let ghost before = views_of(copies@);
                    let copy = sub_chunks[i].clone();
                    copies.push(copy);
                    proof {
                        assert(views_of(copies@) =~= before.push(copy@));
                        assert(views_of(sub_chunks@).take(i + 1) =~= before.push(copy@));
                    }
                    i = i + 1;
                }
                proof {
                    assert(views_of(sub_chunks@).take(i as int) =~= views_of(sub_chunks@));
                }
                Chunk::List { data_type: ChunkDataType(data_type.0), sub_chunks: copies }
            },
        }
    }
}

impl ChunkIdentifier {
    /// Reads an identifier from the front of `reader`.
    pub fn read_from(reader: &mut &[u8]) -> (result: Result<Self, std::io::Error>)
        ensures
            result is Ok <==> old(reader)@.len() >= 4,
            result is Ok ==> result->Ok_0@ == old(reader)@.take(4) && final(reader)@ == old(
                reader,
            )@.skip(4),
            result is Err ==> final(reader)@ == Seq::<u8>::empty(),
    {
        let bytes = read_tag(reader)?;
        return Ok(ChunkIdentifier(bytes));
    }

    /// The identifier as text, for display. Bytes that are no valid UTF-8 are
    /// replaced, so every identifier has a text, and it is never empty.
    pub fn to_string(&self) -> (text: String)
        ensures
            text@ == utf8_lossy(self@),
            valid_utf8(self@) ==> text@ == decode_utf8(self@),
            text@.len() > 0,
    {
        lossy_text(self.0.as_slice())
    }
}

impl ChunkDataType {
    /// Reads a data type from the front of `reader`.
    pub fn read_from(reader: &mut &[u8]) -> (result: Result<Self, std::io::Error>)
        ensures
            result is Ok <==> old(reader)@.len() >= 4,
            result is Ok ==> result->Ok_0@ == old(reader)@.take(4) && final(reader)@ == old(
                reader,
            )@.skip(4),
            result is Err ==> final(reader)@ == Seq::<u8>::empty(),
    {
        let bytes = read_tag(reader)?;
        return Ok(ChunkDataType(bytes));
    }

    /// The data type as text, for display. Bytes that are no valid UTF-8 are
    /// replaced, so every data type has a text, and it is never empty.
    pub fn to_string(&self) -> (text: String)
        ensures
            text@ == utf8_lossy(self@),
            valid_utf8(self@) ==> text@ == decode_utf8(self@),
            text@.len() > 0,
    {
        lossy_text(self.0.as_slice())
    }
}

impl Chunk {
    /// The bytes this chunk occupies on disk, its own eight-byte header included.
    pub fn outer_size(&self) -> (size: usize)
        requires
            self@.outer_size() <= usize::MAX,
        ensures
            size == self@.outer_size(),
            size == 8 + self@.inner_size(),
        decreases self, 1nat,
    {
        8 + self.inner_size()
    }

    /// The bytes of this chunk's payload, as its length field declares them.
    /// For a list the size is not stored: it is added up from the children.
    pub fn inner_size(&self) -> (size: usize)
        requires
            self@.inner_size() <= usize::MAX,
        ensures
            size == self@.inner_size(),
        decreases self, 0nat,
    {
        match self {
            Chunk::Simple { identifier: _, data } => data.len(),
            Chunk::List { data_type: _, sub_chunks } => {
                let ghost views = views_of(sub_chunks@);
                let mut total: usize = 4;
                let mut i: usize = 0;
                while i < sub_chunks.len()
                    invariant
                        i <= sub_chunks.len(),
                        self is List,
                        self->sub_chunks == *sub_chunks,
                        views == views_of(sub_chunks@),
                        total == 4 + total_outer_size(views.take(i as int)),
                        4 + total_outer_size(views) <= usize::MAX,
                    decreases sub_chunks.len() - i,
                {
                    proof {
                        lemma_total_outer_size_push(views.take(i as int), views[i as int]);
                        assert(views.take(i as int).push(views[i as int]) =~= views.take(i + 1));
                        lemma_total_outer_size_prefix(views, i + 1);
                    }
                    total = total + sub_chunks[i].outer_size();
                    i = i + 1;
                }
                proof {
                    assert(views.take(i as int) =~= views);
                }
                total
            },
        }
    }
}

/// The outer sizes of `chunks` added up, or `None` where the sum does not fit
/// a `usize`.
pub fn checked_total_outer_size(chunks: &Vec<Chunk>) -> (total: Option<usize>)
    ensures
        total is Some <==> total_outer_size(views_of(chunks@)) <= usize::MAX,
        total is Some ==> total->0 == total_outer_size(views_of(chunks@)),
    decreases chunks, 2nat,
{
    let ghost views = views_of(chunks@);
    let mut total: usize = 0;
    let mut i: usize = 0;
    while i < chunks.len()
        invariant
            i <= chunks.len(),
            views == views_of(chunks@),
            total == total_outer_size(views.take(i as int)),
        decreases chunks.len() - i,
    {
        proof {
            lemma_total_outer_size_push(views.take(i as int), views[i as int]);
            assert(views.take(i as int).push(views[i as int]) =~= views.take(i + 1));
            lemma_total_outer_size_prefix(views, i + 1);
        }
        let size = match chunks[i].checked_outer_size() {
            Some(size) => size,
            None => {
                return None;
            },
        };
        total = match total.checked_add(size) {
            Some(total) => total,
            None => {
                return None;
            },
        };
        i = i + 1;
    }
    proof {
        assert(views.take(i as int) =~= views);
    }
    Some(total)
}

impl Chunk {
    /// The outer size, or `None` where it does not fit a `usize`.
    pub fn checked_outer_size(&self) -> (size: Option<usize>)
        ensures
            size is Some <==> self@.outer_size() <= usize::MAX,
            size is Some ==> size->0 == self@.outer_size(),
        decreases self, 1nat,
    {
        match self.checked_inner_size() {
            Some(size) => size.checked_add(8),
            None => None,
        }
    }

    /// The inner size, or `None` where it does not fit a `usize`.
    pub fn checked_inner_size(&self) -> (size: Option<usize>)
        ensures
            size is Some <==> self@.inner_size() <= usize::MAX,
            size is Some ==> size->0 == self@.inner_size(),
        decreases self, 0nat,
    {
        match self {
            Chunk::Simple { identifier: _, data } => Some(data.len()),
            Chunk::List { data_type: _, sub_chunks } => {
                match checked_total_outer_size(sub_chunks) {
                    Some(total) => total.checked_add(4),
                    None => None,
                }
            },
        }
    }
}

} // verus!
