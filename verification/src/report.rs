//! The report: for each listed chunk a heading, its block entities in the
//! order in which the chunk stores them, and a marker where the list was
//! cut short.

use crate::chunk::{BlockEntity, BlockEntityView, Chunk, ChunkView};
use crate::rank::{borrowed_views, top_ranked, RankedChunkSet};
use crate::text::{decimal, push_decimal, push_right_aligned, push_signed, right_aligned, signed_decimal};
use vstd::prelude::*;

verus! {

/// How many chunks a report lists unless told otherwise.
pub const DEFAULT_MAX_CHUNKS: usize = 10;

/// How many block entities a report lists for a chunk unless told otherwise.
pub const DEFAULT_MAX_BLOCK_ENTITIES: usize = 30;

/// Columns in which a block entity's number is right-aligned.
pub const INDEX_WIDTH: usize = 10;

/// The noun for `count` block entities.
pub open spec fn noun(count: nat) -> Seq<char> {
    if count == 1 {
        "block entity"@
    } else {
        "block entities"@
    }
}

/// The heading of a chunk: its coordinates and how many block entities it has.
pub open spec fn heading(chunk: ChunkView) -> Seq<char> {
    "Chunk ("@ + signed_decimal(chunk.x) + ", "@ + signed_decimal(chunk.z) + "): "@ + decimal(
        chunk.count(),
    ) + " "@ + noun(chunk.count())
}

/// The line of the block entity at `index` of its chunk, numbered from one.
pub open spec fn entity_line(index: nat, entity: BlockEntityView) -> Seq<char> {
    right_aligned(decimal(index + 1), INDEX_WIDTH as nat) + ": "@ + entity.id + " at ("@
        + signed_decimal(entity.x) + ", "@ + signed_decimal(entity.y) + ", "@ + signed_decimal(
        entity.z,
    ) + ")"@
}

/// The line that stands for the block entities that are not listed.
pub open spec fn marker() -> Seq<char> {
    "            ..."@
}

/// How many block entities of a chunk are listed.
pub open spec fn shown(chunk: ChunkView, max_block_entities: nat) -> nat {
    if max_block_entities < chunk.count() {
        max_block_entities
    } else {
        chunk.count()
    }
}

/// The lines of the first `n` block entities.
pub open spec fn entity_lines(entities: Seq<BlockEntityView>, n: nat) -> Seq<Seq<char>> {
    Seq::new(n, |i: int| entity_line(i as nat, entities[i]))
}

/// The lines for one chunk: the heading, the block entities that are
/// listed, and the marker if some are not.
pub open spec fn chunk_lines(chunk: ChunkView, max_block_entities: nat) -> Seq<Seq<char>> {
    let listed = seq![heading(chunk)] + entity_lines(
        chunk.block_entities,
        shown(chunk, max_block_entities),
    );
    if chunk.count() > max_block_entities {
        listed.push(marker())
    } else {
        listed
    }
}

/// The lines for a sequence of chunks, one chunk after the other.
pub open spec fn chunks_lines(chunks: Seq<ChunkView>, max_block_entities: nat) -> Seq<Seq<char>>
    decreases chunks.len(),
{
    if chunks.len() == 0 {
        Seq::empty()
    } else {
        chunks_lines(chunks.drop_last(), max_block_entities) + chunk_lines(
            chunks.last(),
            max_block_entities,
        )
    }
}

/// The whole report of a ranked set.
pub open spec fn report_lines(
    chunks: Seq<ChunkView>,
    max_chunks: nat,
    max_block_entities: nat,
) -> Seq<Seq<char>> {
    chunks_lines(top_ranked(chunks, max_chunks), max_block_entities)
}

/// The characters of each line.
pub open spec fn line_views(lines: Seq<String>) -> Seq<Seq<char>> {
    Seq::new(lines.len(), |i: int| lines[i]@)
}

/// A chunk with more block entities than are listed gets its heading, the
/// first `max_block_entities` of them in their order, and one marker at the
/// end. A chunk with no more than that gets its heading and all of them,
/// and no marker.
pub proof fn lemma_chunk_lines(chunk: ChunkView, max_block_entities: nat)
    ensures
        chunk_lines(chunk, max_block_entities)[0] == heading(chunk),
        forall|i: int|
            0 <= i < shown(chunk, max_block_entities) ==> #[trigger] chunk_lines(
                chunk,
                max_block_entities,
            )[i + 1] == entity_line(i as nat, chunk.block_entities[i]),
        chunk.count() > max_block_entities ==> {
            &&& chunk_lines(chunk, max_block_entities).len() == max_block_entities + 2
            &&& chunk_lines(chunk, max_block_entities).last() == marker()
        },
        chunk.count() <= max_block_entities ==> chunk_lines(chunk, max_block_entities).len()
            == chunk.count() + 1,
{
}

/// The noun that goes with `count`: singular for one, plural otherwise.
pub fn noun_for(count: usize) -> (word: &'static str)
    ensures
        word@ == noun(count as nat),
{
    if count == 1 {
        "block entity"
    } else {
        "block entities"
    }
}

/// Renders the heading of a chunk.
pub fn render_heading(chunk: &Chunk) -> (line: String)
    ensures
        line@ == heading(chunk@),
{
    let count: usize = chunk.block_entities.len();
    let mut line = "Chunk (".to_owned();
    push_signed(&mut line, chunk.x);
    line.append(", ");
    push_signed(&mut line, chunk.z);
    line.append("): ");
    push_decimal(&mut line, count as u64);
    line.append(" ");
    line.append(noun_for(count));
    line
}

/// Renders the line of the block entity at `index` of its chunk.
pub fn render_entity(index: usize, entity: &BlockEntity) -> (line: String)
    requires
        index < usize::MAX,
    ensures
        line@ == entity_line(index as nat, entity@),
{
    let mut line = String::new();
    push_right_aligned(&mut line, index as u64 + 1, INDEX_WIDTH);
    line.append(": ");
    line.append(entity.id.as_str());
    line.append(" at (");
    push_signed(&mut line, entity.x);
    line.append(", ");
    push_signed(&mut line, entity.y);
    line.append(", ");
    push_signed(&mut line, entity.z);
    line.append(")");
    line
}

/// Appends the lines for one chunk to `lines`.
pub fn render_chunk(chunk: &Chunk, max_block_entities: usize, lines: &mut Vec<String>)
    ensures
        line_views(final(lines)@) == line_views(old(lines)@) + chunk_lines(
            chunk@,
            max_block_entities as nat,
        ),
{
    let count: usize = chunk.block_entities.len();
    let wanted: usize = if max_block_entities < count {
        max_block_entities
    } else {
        count
    };
    let ghost before = line_views(lines@);
    lines.push(render_heading(chunk));
    let mut i: usize = 0;
    while i < wanted
        invariant
            i <= wanted <= count,
            count == chunk.block_entities@.len(),
            line_views(lines@) == before + seq![heading(chunk@)] + entity_lines(
                chunk@.block_entities,
                i as nat,
            ),
        decreases wanted - i,
    {
        let ghost listed = line_views(lines@);
        let ghost entities = chunk@.block_entities;
        lines.push(render_entity(i, &chunk.block_entities[i]));
        proof {
            let line = entity_line(i as nat, entities[i as int]);
            assert(line_views(lines@) =~= listed.push(line));
        }
        i += 1;
    }
    let ghost listed = line_views(lines@);
    if count > max_block_entities {
        lines.push("            ...".to_owned());
        assert(line_views(lines@) =~= listed.push(marker()));
    }
}

/// Renders the report of a ranked set: the `max_chunks` highest-ranking
/// chunks, the highest first, each with at most `max_block_entities` of its
/// block entities.
pub fn render_report(set: &RankedChunkSet, max_chunks: usize, max_block_entities: usize) -> (lines:
    Vec<String>)
    ensures
        line_views(lines@) == report_lines(set@, max_chunks as nat, max_block_entities as nat),
{
    let best = set.top(max_chunks);
    let ghost top = top_ranked(set@, max_chunks as nat);
    let mut lines: Vec<String> = Vec::new();
    let mut i: usize = 0;
    while i < best.len()
        invariant
            i <= best@.len(),
            top == borrowed_views(best@),
            line_views(lines@) == chunks_lines(top.take(i as int), max_block_entities as nat),
        decreases best@.len() - i,
    {
        proof {
            let next = top.take(i + 1);
            assert(next.drop_last() =~= top.take(i as int));
        }
        render_chunk(best[i], max_block_entities, &mut lines);
        i += 1;
    }
    assert(top.take(i as int) =~= top);
    lines
}

} // verus!
