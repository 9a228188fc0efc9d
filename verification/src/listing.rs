//! A tree of chunks as lines of text, one line per chunk, indented by depth.

use vstd::prelude::*;
use vstd::string::StringExecFns;
use crate::chunk::checked_total_outer_size;
use crate::chunk::total_outer_size;
use crate::chunk::utf8_lossy;
use crate::chunk::views_of;
use crate::chunk::Chunk;
use crate::chunk::ChunkView;

verus! {

/// Two spaces for each level.
pub open spec fn indent_of(level: int) -> Seq<char>
    decreases level,
{
    if level <= 0 {
        Seq::empty()
    } else {
        indent_of(level - 1) + "  "@
    }
}

/// The character of a decimal digit.
pub open spec fn digit(value: nat) -> char
    recommends
        value < 10,
{
    (value + 48) as u8 as char
}

/// A number in decimal, without leading zeros.
pub open spec fn decimal(value: nat) -> Seq<char>
    decreases value,
{
    if value < 10 {
        seq![digit(value)]
    } else {
        decimal(value / 10).push(digit(value % 10))
    }
}

/// The line that describes one chunk: a simple chunk by its identifier and
/// the size of its data, a list by its inner size and its data type.
pub open spec fn line_of(chunk: ChunkView, level: int) -> Seq<char> {
    match chunk {
        ChunkView::Simple { identifier, data } => indent_of(level) + utf8_lossy(identifier) + ": "@
            + decimal(chunk.inner_size()),
        ChunkView::List { data_type, sub_chunks } => indent_of(level) + "LIST "@ + decimal(
            chunk.inner_size(),
        ) + " items: "@ + utf8_lossy(data_type),
    }
}

/// The lines that describe a chunk: its own line and, one level deeper, the
/// lines of its children.
pub open spec fn lines_of_chunk(chunk: ChunkView, level: int) -> Seq<Seq<char>>
    decreases chunk, 0nat,
{
    match chunk {
        ChunkView::Simple { identifier, data } => seq![line_of(chunk, level)],
        ChunkView::List { data_type, sub_chunks } => seq![line_of(chunk, level)] + lines_of_chunks(
            sub_chunks,
            level + 1,
        ),
    }
}

/// The lines that describe `chunks`, in their order.
pub open spec fn lines_of_chunks(chunks: Seq<ChunkView>, level: int) -> Seq<Seq<char>>
    decreases chunks, 1nat,
{
    if chunks.len() == 0 {
        Seq::empty()
    } else {
        lines_of_chunk(chunks.first(), level) + lines_of_chunks(chunks.drop_first(), level)
    }
}

/// How many levels of lists a chunk holds, itself included.
pub open spec fn nesting(chunk: ChunkView) -> nat
    decreases chunk, 0nat,
{
    match chunk {
        ChunkView::Simple { identifier, data } => 0,
        ChunkView::List { data_type, sub_chunks } => 1 + deepest(sub_chunks),
    }
}

/// The deepest nesting among `chunks`.
pub open spec fn deepest(chunks: Seq<ChunkView>) -> nat
    decreases chunks, 1nat,
{
    if chunks.len() == 0 {
        0
    } else if nesting(chunks.first()) >= deepest(chunks.drop_first()) {
        nesting(chunks.first())
    } else {
        deepest(chunks.drop_first())
    }
}

/// Whether `chunks` can be listed from `level` on: their sizes fit a
/// `usize`, and the deepest level fits an `i32`.
pub open spec fn listable(chunks: Seq<ChunkView>, level: int) -> bool {
    &&& total_outer_size(chunks) <= usize::MAX
    &&& level + deepest(chunks) <= i32::MAX
}

/// The texts of `lines`, one by one.
pub open spec fn texts_of(lines: Seq<String>) -> Seq<Seq<char>> {
    Seq::new(lines.len(), |i: int| lines[i]@)
}

/// The lines of two sequences joined are the lines of the first followed by
/// the lines of the second.
pub proof fn lemma_lines_of_chunks_concat(front: Seq<ChunkView>, back: Seq<ChunkView>, level: int)
    ensures
        lines_of_chunks(front + back, level) == lines_of_chunks(front, level) + lines_of_chunks(
            back,
            level,
        ),
    decreases front.len(),
{
    if front.len() == 0 {
        assert(front + back =~= back);
        assert(lines_of_chunks(front, level) + lines_of_chunks(back, level) =~= lines_of_chunks(
            back,
            level,
        ));
    } else {
        lemma_lines_of_chunks_concat(front.drop_first(), back, level);
        assert((front + back).drop_first() =~= front.drop_first() + back);
        assert(lines_of_chunks(front + back, level) =~= lines_of_chunks(front, level)
            + lines_of_chunks(back, level));
    }
}

/// No chunk of a sequence nests deeper than the deepest, and none is larger
/// than the total.
pub proof fn lemma_member_bounds(chunks: Seq<ChunkView>, i: int)
    requires
        0 <= i < chunks.len(),
    ensures
        nesting(chunks[i]) <= deepest(chunks),
        chunks[i].outer_size() <= total_outer_size(chunks),
    decreases chunks.len(),
{
    if i > 0 {
        lemma_member_bounds(chunks.drop_first(), i - 1);
    }
}

/// One more chunk at the end nests the whole as deep as the deeper of the two.
pub proof fn lemma_deepest_push(chunks: Seq<ChunkView>, last: ChunkView)
    ensures
        deepest(chunks.push(last)) == if nesting(last) >= deepest(chunks) {
            nesting(last)
        } else {
            deepest(chunks)
        },
    decreases chunks.len(),
{
    if chunks.len() == 0 {
        assert(chunks.push(last).drop_first() =~= chunks);
    } else {
        lemma_deepest_push(chunks.drop_first(), last);
        assert(chunks.push(last).drop_first() =~= chunks.drop_first().push(last));
    }
}

/// Calls `usize::to_string`, which writes a number in decimal.
#[verifier::external_body]
fn decimal_text(value: usize) -> (text: String)
    ensures
        text@ == decimal(value as nat),
{
    value.to_string()
}

/// The indentation of a level: two spaces for each level, none below level 1.
pub fn get_indent(level: i32) -> (string: String)
    ensures
        string@ == indent_of(level as int),
{
    let mut string = String::new();
    let mut i: i32 = 0;
    while i < level
        invariant
            0 <= i,
            i <= level || i == 0,
            string@ == indent_of(i as int),
        decreases level - i,
    {
        string.append("  ");
        i = i + 1;
    }
    return string;
}

/// Whether the deepest level of `chunks`, listed from `indent_level` on, fits
/// an `i32`.
fn levels_fit(chunks: &Vec<Chunk>, indent_level: i32) -> (fit: bool)
    ensures
        fit <==> indent_level + deepest(views_of(chunks@)) <= i32::MAX,
    decreases chunks,
{
    let ghost views = views_of(chunks@);
    let mut i: usize = 0;
    while i < chunks.len()
        invariant
            i <= chunks.len(),
            views == views_of(chunks@),
            indent_level + deepest(views.take(i as int)) <= i32::MAX,
        decreases chunks.len() - i,
    {
        proof {
            lemma_member_bounds(views, i as int);
            lemma_deepest_push(views.take(i as int), views[i as int]);
            assert(views.take(i as int).push(views[i as int]) =~= views.take(i + 1));
        }
        match &chunks[i] {
            Chunk::Simple { identifier: _, data: _ } => {},
            Chunk::List { data_type: _, sub_chunks } => {
                if indent_level == i32::MAX || !levels_fit(sub_chunks, indent_level + 1) {
                    return false;
                }
            },
        }
        i = i + 1;
    }
    proof {
        assert(views.take(i as int) =~= views);
    }
    true
}

/// Whether `chunks` can be listed from `indent_level` on.
pub fn can_list(chunks: &Vec<Chunk>, indent_level: i32) -> (yes: bool)
    ensures
        yes <==> listable(views_of(chunks@), indent_level as int),
{
    checked_total_outer_size(chunks).is_some() && levels_fit(chunks, indent_level)
}

/// The line that describes `chunk` behind `indent`.
fn chunk_line(chunk: &Chunk, indent: &String, level: Ghost<int>) -> (line: String)
    requires
        chunk@.inner_size() <= usize::MAX,
        indent@ == indent_of(level@),
    ensures
        line@ == line_of(chunk@, level@),
{
    let size = chunk.inner_size();
    let mut line = indent.clone();
    match chunk {
        Chunk::Simple { identifier, data: _ } => {
            line.append(identifier.to_string().as_str());
            line.append(": ");
            line.append(decimal_text(size).as_str());
        },
        Chunk::List { data_type, sub_chunks: _ } => {
            line.append("LIST ");
            line.append(decimal_text(size).as_str());
            line.append(" items: ");
            line.append(data_type.to_string().as_str());
        },
    }
    line
}

/// The lines that describe `chunks`: for a simple chunk its identifier and
/// the size of its data, for a list its inner size and its data type,
/// followed by the lines of its children one level deeper.
pub fn chunk_lines(chunks: &Vec<Chunk>, indent_level: i32) -> (lines: Vec<String>)
    requires
        listable(views_of(chunks@), indent_level as int),
    ensures
        texts_of(lines@) == lines_of_chunks(views_of(chunks@), indent_level as int),
    decreases chunks,
{
    let ghost views = views_of(chunks@);
    let ghost level = indent_level as int;
    let indent = get_indent(indent_level);
    let mut lines: Vec<String> = Vec::new();
    let mut i: usize = 0;
    while i < chunks.len()
        invariant
            i <= chunks.len(),
            views == views_of(chunks@),
            level == indent_level,
            listable(views, level),
            indent@ == indent_of(level),
            texts_of(lines@) == lines_of_chunks(views.take(i as int), level),
        decreases chunks.len() - i,
    {
        let chunk = &chunks[i];
        let ghost before = texts_of(lines@);
        proof {
            lemma_member_bounds(views, i as int);
            lemma_lines_of_chunks_concat(views.take(i as int), seq![views[i as int]], level);
            assert(views.take(i as int) + seq![views[i as int]] =~= views.take(i + 1));
            assert(seq![views[i as int]].drop_first() =~= Seq::<ChunkView>::empty());
            assert(lines_of_chunks(Seq::<ChunkView>::empty(), level) =~= Seq::empty());
            assert(seq![views[i as int]].first() == views[i as int]);
            assert(lines_of_chunks(seq![views[i as int]], level) =~= lines_of_chunk(
                views[i as int],
                level,
            ));
        }
        let line = chunk_line(chunk, &indent, Ghost(level));
        lines.push(line);
        proof {
            assert(texts_of(lines@) =~= before + seq![line_of(chunk@, level)]);
        }
        match chunk {
            Chunk::Simple { identifier: _, data: _ } => {},
            Chunk::List { data_type: _, sub_chunks } => {
                let ghost own = texts_of(lines@);
                let mut sub_lines = chunk_lines(sub_chunks, indent_level + 1);
                let ghost below = texts_of(sub_lines@);
                lines.append(&mut sub_lines);
                proof {
                    assert(texts_of(lines@) =~= own + below);
                    assert(before + (seq![line_of(chunk@, level)] + below) =~= own + below);
                }
            },
        }
        i = i + 1;
    }
    proof {
        assert(views.take(i as int) =~= views);
    }
    lines
}

} // verus!
