//! The ranked set of chunks: kept in ascending order of rank, holding at
//! most one chunk of each rank, and read from the top for the report.

use crate::chunk::{Chunk, ChunkView, RankKey};
use vstd::prelude::*;

verus! {

/// The values of a sequence of chunks.
pub open spec fn chunk_views(chunks: Seq<Chunk>) -> Seq<ChunkView> {
    Seq::new(chunks.len(), |i: int| chunks[i]@)
}

/// The values of a sequence of borrowed chunks.
pub open spec fn borrowed_views(chunks: Seq<&Chunk>) -> Seq<ChunkView> {
    Seq::new(chunks.len(), |i: int| (*chunks[i])@)
}

/// Whether each chunk ranks strictly below every later one.
pub open spec fn ascending(chunks: Seq<ChunkView>) -> bool {
    forall|i: int, j: int|
        0 <= i < j < chunks.len() ==> (#[trigger] chunks[i]).key().below((#[trigger] chunks[j]).key())
}

/// Whether each chunk ranks strictly above every later one.
pub open spec fn descending(chunks: Seq<ChunkView>) -> bool {
    forall|i: int, j: int|
        0 <= i < j < chunks.len() ==> (#[trigger] chunks[j]).key().below((#[trigger] chunks[i]).key())
}

/// Whether a chunk of rank `key` is among `chunks`.
pub open spec fn holds(chunks: Seq<ChunkView>, key: RankKey) -> bool {
    exists|i: int| 0 <= i < chunks.len() && (#[trigger] chunks[i]).key() == key
}

/// Number of chunks at the start of `chunks` that rank below `key`: in an
/// ascending sequence, the place of a chunk of that rank.
pub open spec fn position(chunks: Seq<ChunkView>, key: RankKey) -> int
    decreases chunks.len(),
{
    if chunks.len() == 0 || !chunks[0].key().below(key) {
        0
    } else {
        1 + position(chunks.drop_first(), key)
    }
}

/// The set after `chunk` is offered to it: unchanged if it holds a chunk of
/// that rank already, else with `chunk` at its place.
pub open spec fn with_chunk(chunks: Seq<ChunkView>, chunk: ChunkView) -> Seq<ChunkView> {
    if holds(chunks, chunk.key()) {
        chunks
    } else {
        chunks.insert(position(chunks, chunk.key()), chunk)
    }
}

/// How many chunks a report of at most `max_chunks` lists.
pub open spec fn listed(chunks: Seq<ChunkView>, max_chunks: nat) -> nat {
    if max_chunks < chunks.len() {
        max_chunks
    } else {
        chunks.len()
    }
}

/// The chunks that a report lists: the order of the set read backwards,
/// cut off after `max_chunks`.
pub open spec fn top_ranked(chunks: Seq<ChunkView>, max_chunks: nat) -> Seq<ChunkView> {
    chunks.reverse().take(listed(chunks, max_chunks) as int)
}

/// In an ascending sequence, `position` is the one index that parts the
/// chunks below `key` from the others.
pub proof fn lemma_position(chunks: Seq<ChunkView>, key: RankKey, at: int)
    requires
        0 <= at <= chunks.len(),
        forall|i: int| 0 <= i < at ==> (#[trigger] chunks[i]).key().below(key),
        at < chunks.len() ==> !chunks[at].key().below(key),
    ensures
        position(chunks, key) == at,
    decreases chunks.len(),
{
    if at > 0 {
        let rest = chunks.drop_first();
        assert forall|i: int| 0 <= i < at - 1 implies (#[trigger] rest[i]).key().below(key) by {
            assert(rest[i] == chunks[i + 1]);
        }
        lemma_position(rest, key, at - 1);
    }
}

/// Offering a chunk to an ascending sequence leaves it ascending, holding a
/// chunk of that rank, and holding every rank that it held.
pub proof fn lemma_with_chunk(chunks: Seq<ChunkView>, chunk: ChunkView)
    requires
        ascending(chunks),
    ensures
        ascending(with_chunk(chunks, chunk)),
        holds(with_chunk(chunks, chunk), chunk.key()),
        forall|key: RankKey| holds(chunks, key) ==> holds(with_chunk(chunks, chunk), key),
        with_chunk(chunks, chunk).len() == chunks.len() + if holds(chunks, chunk.key()) {
            0int
        } else {
            1int
        },
{
    let key = chunk.key();
    if !holds(chunks, key) {
        let at = position(chunks, key);
        lemma_position_parts(chunks, key);
        let grown = chunks.insert(at, chunk);
        assert forall|i: int, j: int| 0 <= i < j < grown.len() implies (#[trigger] grown[i]).key().below(
            (#[trigger] grown[j]).key(),
        ) by {
            // Either both were neighbours before, or one of them is the new chunk.
            if i == at {
                assert(grown[j] == chunks[j - 1]);
            } else if j == at {
                assert(grown[i] == chunks[i]);
            }
        }
        assert(grown[at].key() == key);
        assert forall|other: RankKey| holds(chunks, other) implies holds(grown, other) by {
            let i = choose|i: int| 0 <= i < chunks.len() && (#[trigger] chunks[i]).key() == other;
            let moved = if i < at {
                i
            } else {
                i + 1
            };
            assert(grown[moved] == chunks[i]);
        }
    }
}

/// `position` is an index of the sequence or its length.
pub proof fn lemma_position_bounds(chunks: Seq<ChunkView>, key: RankKey)
    ensures
        0 <= position(chunks, key) <= chunks.len(),
    decreases chunks.len(),
{
    if chunks.len() > 0 {
        lemma_position_bounds(chunks.drop_first(), key);
    }
}

/// In an ascending sequence, the chunks before `position` rank below `key`
/// and the others do not.
pub proof fn lemma_position_parts(chunks: Seq<ChunkView>, key: RankKey)
    requires
        ascending(chunks),
    ensures
        0 <= position(chunks, key) <= chunks.len(),
        forall|i: int| 0 <= i < position(chunks, key) ==> (#[trigger] chunks[i]).key().below(key),
        forall|i: int|
            position(chunks, key) <= i < chunks.len() ==> !(#[trigger] chunks[i]).key().below(key),
    decreases chunks.len(),
{
    if chunks.len() > 0 {
        let rest = chunks.drop_first();
        assert(ascending(rest)) by {
            assert forall|i: int, j: int| 0 <= i < j < rest.len() implies (#[trigger] rest[i]).key().below(
                (#[trigger] rest[j]).key(),
            ) by {
                assert(rest[i] == chunks[i + 1]);
                assert(rest[j] == chunks[j + 1]);
            }
        }
        lemma_position_parts(rest, key);
        if chunks[0].key().below(key) {
            assert forall|i: int| 0 <= i < position(chunks, key) implies (#[trigger] chunks[i]).key().below(
                key,
            ) by {
                if i > 0 {
                    assert(chunks[i] == rest[i - 1]);
                }
            }
            assert forall|i: int| position(chunks, key) <= i < chunks.len() implies !(
            #[trigger] chunks[i]).key().below(key) by {
                assert(chunks[i] == rest[i - 1]);
            }
        } else {
            assert forall|i: int| 0 <= i < chunks.len() implies !(#[trigger] chunks[i]).key().below(
                key,
            ) by {
                if i > 0 {
                    assert(chunks[0].key().below(chunks[i].key()));
                }
            }
        }
    }
}

/// The chunks of a scan, ranked. Ascending by block-entity count, then by
/// coordinates; of two chunks with the same rank only the first one offered
/// is kept.
#[derive(Debug)]
pub struct RankedChunkSet {
    chunks: Vec<Chunk>,
}

impl View for RankedChunkSet {
    type V = Seq<ChunkView>;

    closed spec fn view(&self) -> Seq<ChunkView> {
        chunk_views(self.chunks@)
    }
}

impl RankedChunkSet {
    #[verifier::type_invariant]
    spec fn ranked(self) -> bool {
        ascending(chunk_views(self.chunks@))
    }

    /// An empty set.
    pub fn new() -> (set: RankedChunkSet)
        ensures
            set@ == Seq::<ChunkView>::empty(),
    {
        RankedChunkSet { chunks: Vec::new() }
    }

    /// Number of chunks in the set.
    pub fn len(&self) -> (len: usize)
        ensures
            len == self@.len(),
    {
        self.chunks.len()
    }

    /// The chunks in ascending order of rank.
    pub fn as_slice(&self) -> (chunks: &[Chunk])
        ensures
            chunk_views(chunks@) == self@,
            ascending(self@),
    {
        proof {
            use_type_invariant(self);
        }
        self.chunks.as_slice()
    }

    /// Offers `chunk` to the set. It is put at its place in the order, unless
    /// the set holds a chunk of the same rank already: then the set stays as
    /// it is. Says whether the chunk was put in.
    pub fn insert(&mut self, chunk: Chunk) -> (inserted: bool)
        ensures
            final(self)@ == with_chunk(old(self)@, chunk@),
            inserted == !holds(old(self)@, chunk@.key()),
            ascending(old(self)@),
            ascending(final(self)@),
    {
        proof {
            use_type_invariant(&*self);
        }
        let ghost views = self@;
        let ghost key = chunk@.key();
        let len: usize = self.chunks.len();
        let mut low: usize = 0;
        let mut high: usize = len;
        while low < high
            invariant
                low <= high <= len,
                len == self.chunks@.len(),
                views == chunk_views(self.chunks@),
                ascending(views),
                key == chunk@.key(),
                forall|i: int| 0 <= i < low ==> (#[trigger] views[i]).key().below(key),
                forall|i: int| high <= i < len ==> !(#[trigger] views[i]).key().below(key),
            decreases high - low,
        {
            let middle: usize = low + (high - low) / 2;
            if self.chunks[middle].ranks_below(&chunk) {
                assert forall|i: int| 0 <= i < middle + 1 implies (#[trigger] views[i]).key().below(
                    key,
                ) by {
                    if i < middle {
                        assert(views[i].key().below(views[middle as int].key()));
                    }
                }
                low = middle + 1;
            } else {
                assert forall|i: int| middle <= i < len implies !(#[trigger] views[i]).key().below(
                    key,
                ) by {
                    if i > middle {
                        assert(views[middle as int].key().below(views[i].key()));
                    }
                }
                high = middle;
            }
        }
        proof {
            lemma_position(views, key, low as int);
        }
        if low < len {
            assert(views[low as int] == self.chunks@[low as int]@);
            if self.chunks[low].same_rank(&chunk) {
                return false;
            }
        }
        proof {
            assert(!holds(views, key)) by {
                assert forall|i: int| 0 <= i < len implies (#[trigger] views[i]).key() != key by {
                    if i > low {
                        assert(views[low as int].key().below(views[i].key()));
                    }
                }
            }
            lemma_with_chunk(views, chunk@);
            assert(chunk_views(self.chunks@.insert(low as int, chunk)) =~= views.insert(
                low as int,
                chunk@,
            ));
        }
        // The vector is grown outside the set, which is empty meanwhile.
        let mut chunks: Vec<Chunk> = Vec::new();
        std::mem::swap(&mut self.chunks, &mut chunks);
        chunks.insert(low, chunk);
        std::mem::swap(&mut self.chunks, &mut chunks);
        true
    }

    /// The chunks that a report lists: the highest-ranking first, at most
    /// `max_chunks` of them.
    pub fn top(&self, max_chunks: usize) -> (best: Vec<&Chunk>)
        ensures
            borrowed_views(best@) == top_ranked(self@, max_chunks as nat),
            best@.len() == listed(self@, max_chunks as nat),
    {
        let len: usize = self.chunks.len();
        let wanted: usize = if max_chunks < len {
            max_chunks
        } else {
            len
        };
        let mut best: Vec<&Chunk> = Vec::new();
        let mut taken: usize = 0;
        while taken < wanted
            invariant
                taken <= wanted <= len,
                len == self.chunks@.len(),
                best@.len() == taken,
                forall|j: int| 0 <= j < taken ==> *(#[trigger] best@[j]) == self.chunks@[len - 1 - j],
            decreases wanted - taken,
        {
            best.push(&self.chunks[len - 1 - taken]);
            taken += 1;
        }
        best
    }
}

/// A report lists its chunks from the highest rank down: of two chunks the
/// one with more block entities comes first, and of two with as many, the
/// one with the greater coordinates, `x` before `z`.
pub proof fn lemma_top_descending(chunks: Seq<ChunkView>, max_chunks: nat)
    requires
        ascending(chunks),
    ensures
        descending(top_ranked(chunks, max_chunks)),
{
    let top = top_ranked(chunks, max_chunks);
    assert forall|i: int, j: int| 0 <= i < j < top.len() implies (#[trigger] top[j]).key().below(
        (#[trigger] top[i]).key(),
    ) by {
        assert(top[i] == chunks[chunks.len() - 1 - i]);
        assert(top[j] == chunks[chunks.len() - 1 - j]);
    }
}

/// Of two chunks that a report lists, the one with more block entities is
/// listed first; of two with as many, the one whose coordinates are greater,
/// `x` before `z`.
pub proof fn lemma_report_order(chunks: Seq<ChunkView>, max_chunks: nat, a: int, b: int)
    requires
        ascending(chunks),
        0 <= a < listed(chunks, max_chunks),
        0 <= b < listed(chunks, max_chunks),
    ensures
        top_ranked(chunks, max_chunks)[a].count() > top_ranked(chunks, max_chunks)[b].count()
            ==> a < b,
        ({
            let first = top_ranked(chunks, max_chunks)[a];
            let second = top_ranked(chunks, max_chunks)[b];
            first.count() == second.count() && (first.x > second.x || (first.x == second.x
                && first.z > second.z)) ==> a < b
        }),
{
    lemma_top_descending(chunks, max_chunks);
    let top = top_ranked(chunks, max_chunks);
    if b < a {
        assert(top[a].key().below(top[b].key()));
    }
}

/// A report lists `max_chunks` chunks, or all if there are fewer, and every
/// chunk that it leaves out ranks below every chunk that it lists.
pub proof fn lemma_top_truncation(chunks: Seq<ChunkView>, max_chunks: nat)
    requires
        ascending(chunks),
    ensures
        top_ranked(chunks, max_chunks).len() == listed(chunks, max_chunks),
        forall|i: int, j: int|
            0 <= i < chunks.len() - listed(chunks, max_chunks) && 0 <= j < listed(
                chunks,
                max_chunks,
            ) ==> (#[trigger] chunks[i]).key().below(
                (#[trigger] top_ranked(chunks, max_chunks)[j]).key(),
            ),
{
    let top = top_ranked(chunks, max_chunks);
    assert forall|i: int, j: int|
        0 <= i < chunks.len() - listed(chunks, max_chunks) && 0 <= j < listed(
            chunks,
            max_chunks,
        ) implies (#[trigger] chunks[i]).key().below((#[trigger] top[j]).key()) by {
        assert(top[j] == chunks[chunks.len() - 1 - j]);
    }
}

} // verus!
