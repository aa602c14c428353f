//! Chunks and their block entities, and how both are extracted from the
//! tree that a chunk is stored as.

use crate::payload::{Root, RootView};
use crate::skip::Skip;
use crate::tree::{expect, has_shape, Node, Shape, Tree};
use vstd::prelude::*;

verus! {

/// A block entity: its kind and the block it stands on.
#[derive(Clone, Debug, PartialEq, Eq)]
pub struct BlockEntity {
    pub id: String,
    pub x: i32,
    pub y: i32,
    pub z: i32,
}

/// The mathematical value of a [`BlockEntity`].
pub struct BlockEntityView {
    pub id: Seq<char>,
    pub x: int,
    pub y: int,
    pub z: int,
}

impl View for BlockEntity {
    type V = BlockEntityView;

    open spec fn view(&self) -> BlockEntityView {
        BlockEntityView { id: self.id@, x: self.x as int, y: self.y as int, z: self.z as int }
    }
}

/// A chunk with its block entities, in the order in which it stores them.
#[derive(Debug)]
pub struct Chunk {
    pub x: i32,
    pub z: i32,
    pub block_entities: Vec<BlockEntity>,
}

/// The mathematical value of a [`Chunk`].
pub struct ChunkView {
    pub x: int,
    pub z: int,
    pub block_entities: Seq<BlockEntityView>,
}

/// The values of a sequence of block entities.
pub open spec fn entity_views(entities: Seq<BlockEntity>) -> Seq<BlockEntityView> {
    Seq::new(entities.len(), |i: int| entities[i]@)
}

impl View for Chunk {
    type V = ChunkView;

    open spec fn view(&self) -> ChunkView {
        ChunkView {
            x: self.x as int,
            z: self.z as int,
            block_entities: entity_views(self.block_entities@),
        }
    }
}

/// What chunks are ranked by: the number of block entities first, then the
/// coordinates, `x` before `z`.
pub struct RankKey {
    pub count: nat,
    pub x: int,
    pub z: int,
}

impl RankKey {
    /// Whether this key ranks strictly below `other`.
    pub open spec fn below(self, other: RankKey) -> bool {
        self.count < other.count || (self.count == other.count && (self.x < other.x || (self.x
            == other.x && self.z < other.z)))
    }
}

impl ChunkView {
    /// Number of block entities in the chunk.
    pub open spec fn count(self) -> nat {
        self.block_entities.len()
    }

    /// The key that the chunk is ranked by.
    pub open spec fn key(self) -> RankKey {
        RankKey { count: self.count(), x: self.x, z: self.z }
    }
}

/// The block entity that an element of `TileEntities` describes, or why it
/// is dropped. The element has to be a compound with a string `id` and
/// integers `x`, `y` and `z`; the first of these that fails is reported.
pub open spec fn entity_of(item: Tree) -> Result<BlockEntityView, Skip> {
    if item.shape() != Shape::Compound {
        Err(Skip::EntityNotCompound)
    } else if !has_shape(item.field("id"@), Shape::Text) {
        Err(Skip::EntityIdNotString)
    } else if !has_shape(item.field("x"@), Shape::Int) {
        Err(Skip::EntityXNotInt)
    } else if !has_shape(item.field("y"@), Shape::Int) {
        Err(Skip::EntityYNotInt)
    } else if !has_shape(item.field("z"@), Shape::Int) {
        Err(Skip::EntityZNotInt)
    } else {
        Ok(
            BlockEntityView {
                id: item.field("id"@)->0.text(),
                x: item.field("x"@)->0.number(),
                y: item.field("y"@)->0.number(),
                z: item.field("z"@)->0.number(),
            },
        )
    }
}

/// The block entities that survive of a list, in the order of the list.
pub open spec fn kept(items: Seq<Tree>) -> Seq<BlockEntityView>
    decreases items.len(),
{
    if items.len() == 0 {
        Seq::empty()
    } else {
        match entity_of(items.last()) {
            Ok(entity) => kept(items.drop_last()).push(entity),
            Err(_) => kept(items.drop_last()),
        }
    }
}

/// Why the other elements of a list were dropped, in the order of the list.
pub open spec fn dropped(items: Seq<Tree>) -> Seq<Skip>
    decreases items.len(),
{
    if items.len() == 0 {
        Seq::empty()
    } else {
        match entity_of(items.last()) {
            Ok(_) => dropped(items.drop_last()),
            Err(skip) => dropped(items.drop_last()).push(skip),
        }
    }
}

/// Splitting a list splits what is kept of it and what is dropped from it:
/// each element is judged on its own.
pub proof fn lemma_kept_concat(first: Seq<Tree>, second: Seq<Tree>)
    ensures
        kept(first + second) == kept(first) + kept(second),
        dropped(first + second) == dropped(first) + dropped(second),
    decreases second.len(),
{
    if second.len() == 0 {
        assert(first + second =~= first);
    } else {
        // The last element of the whole is the last element of `second`.
        let whole = first + second;
        assert(whole.drop_last() =~= first + second.drop_last());
        lemma_kept_concat(first, second.drop_last());
    }
}

/// An element that is no well-formed block entity is dropped with its
/// anomaly, and the elements around it are kept as if it were not there.
pub proof fn lemma_malformed_dropped(before: Seq<Tree>, item: Tree, after: Seq<Tree>)
    requires
        entity_of(item) is Err,
    ensures
        kept(before.push(item) + after) == kept(before + after),
        dropped(before.push(item) + after) == dropped(before).push(entity_of(item)->Err_0)
            + dropped(after),
{
    let one = seq![item];
    assert(kept(one.drop_last()) =~= Seq::<BlockEntityView>::empty());
    assert(dropped(one.drop_last()) =~= Seq::<Skip>::empty());
    assert(before.push(item) =~= before + one);
    lemma_kept_concat(before, one);
    lemma_kept_concat(before.push(item), after);
    lemma_kept_concat(before, after);
}

/// A compound without a string `id` is no block entity, whatever else it holds.
pub proof fn lemma_missing_id(item: Tree)
    requires
        item.shape() == Shape::Compound,
        !has_shape(item.field("id"@), Shape::Text),
    ensures
        entity_of(item) == Err::<BlockEntityView, Skip>(Skip::EntityIdNotString),
{
}

/// What extraction gives for a chunk: the chunk, if it is kept, and what
/// was ignored on the way.
pub struct Extracted {
    pub chunk: Option<ChunkView>,
    pub skips: Seq<Skip>,
}

/// The outcome of extraction for a `Level` compound whose coordinates are
/// known: the list decides.
pub open spec fn extracted_entities(x: int, z: int, list: Option<Tree>) -> Extracted {
    if !has_shape(list, Shape::List) {
        Extracted { chunk: None, skips: seq![Skip::TileEntitiesNotList] }
    } else {
        let items = list->0.elements();
        Extracted {
            chunk: if kept(items).len() > 0 {
                Some(ChunkView { x, z, block_entities: kept(items) })
            } else {
                None
            },
            skips: dropped(items),
        }
    }
}

/// The outcome of extraction for a decoded root. `Level` has to be a
/// compound, `xPos` and `zPos` integers and `TileEntities` a list, or the
/// chunk is skipped with one anomaly. Otherwise each element of the list is
/// kept or dropped on its own, and a chunk of which no block entity is left
/// is omitted without a word.
pub open spec fn extracted(root: RootView) -> Extracted {
    if !has_shape(root.level, Shape::Compound) {
        Extracted { chunk: None, skips: seq![Skip::LevelNotCompound] }
    } else {
        let level = root.level->0;
        if !has_shape(level.field("xPos"@), Shape::Int) || !has_shape(
            level.field("zPos"@),
            Shape::Int,
        ) {
            Extracted { chunk: None, skips: seq![Skip::CoordinatesNotInts] }
        } else {
            extracted_entities(
                level.field("xPos"@)->0.number(),
                level.field("zPos"@)->0.number(),
                level.field("TileEntities"@),
            )
        }
    }
}

/// The value of an optional chunk.
pub open spec fn chunk_view(chunk: Option<Chunk>) -> Option<ChunkView> {
    match chunk {
        Some(chunk) => Some(chunk@),
        None => None,
    }
}

/// The value of an optional block entity.
pub open spec fn entity_view(entity: Option<BlockEntity>) -> Option<BlockEntityView> {
    match entity {
        Some(entity) => Some(entity@),
        None => None,
    }
}

/// Reads the integer field `name` of a compound, or records `otherwise`.
fn int_field(node: &Node, name: &str, otherwise: Skip, log: &mut Vec<Skip>) -> (value: Option<i32>)
    ensures
        has_shape(node@.field(name@), Shape::Int) ==> value is Some && value->0 == node@.field(
            name@,
        )->0.number() && final(log)@ == old(log)@,
        !has_shape(node@.field(name@), Shape::Int) ==> value is None && final(log)@ == old(
            log,
        )@.push(otherwise),
{
    match expect(node.field(name), Shape::Int, otherwise, log) {
        Some(Node::Int(value)) => Some(*value),
        _ => None,
    }
}

/// Reads one element of `TileEntities`: the block entity it describes, or
/// nothing and one anomaly in `log`.
pub fn read_entity(item: &Node, log: &mut Vec<Skip>) -> (entity: Option<BlockEntity>)
    ensures
        match entity_of(item@) {
            Ok(expected) => entity_view(entity) == Some(expected) && final(log)@ == old(log)@,
            Err(skip) => entity is None && final(log)@ == old(log)@.push(skip),
        },
{
    let compound = match expect(Some(item), Shape::Compound, Skip::EntityNotCompound, log) {
        Some(compound) => compound,
        None => {
            return None;
        },
    };
    let id = match expect(compound.field("id"), Shape::Text, Skip::EntityIdNotString, log) {
        Some(Node::Text(id)) => id.clone(),
        _ => {
            return None;
        },
    };
    let x: i32 = match int_field(compound, "x", Skip::EntityXNotInt, log) {
        Some(x) => x,
        None => {
            return None;
        },
    };
    let y: i32 = match int_field(compound, "y", Skip::EntityYNotInt, log) {
        Some(y) => y,
        None => {
            return None;
        },
    };
    let z: i32 = match int_field(compound, "z", Skip::EntityZNotInt, log) {
        Some(z) => z,
        None => {
            return None;
        },
    };
    Some(BlockEntity { id, x, y, z })
}

/// Reads the elements of `TileEntities` in order, keeping the block
/// entities that are well-formed and recording why each other one is not.
pub fn read_entities(items: &Vec<Node>, log: &mut Vec<Skip>) -> (entities: Vec<BlockEntity>)
    ensures
        entity_views(entities@) == kept(Node::List(*items)@.elements()),
        final(log)@ == old(log)@ + dropped(Node::List(*items)@.elements()),
{
    let ghost trees = Node::List(*items)@.elements();
    let mut entities: Vec<BlockEntity> = Vec::new();
    let mut i: usize = 0;
    while i < items.len()
        invariant
            i <= items@.len(),
            trees == Node::List(*items)@.elements(),
            trees.len() == items@.len(),
            entity_views(entities@) == kept(trees.take(i as int)),
            log@ == old(log)@ + dropped(trees.take(i as int)),
        decreases items@.len() - i,
    {
        proof {
            // One more element: the list so far, and `items[i]` behind it.
            let next = trees.take(i + 1);
            assert(next.drop_last() =~= trees.take(i as int));
            assert(next.last() == items@[i as int]@);
        }
        match read_entity(&items[i], log) {
            Some(entity) => {
                entities.push(entity);
            },
            None => {},
        }
        i += 1;
    }
    assert(trees.take(i as int) =~= trees);
    entities
}

/// Extracts the chunk of a decoded root. Gives the chunk if its shape is as
/// expected and at least one block entity survives; appends to `log` what
/// was ignored.
pub fn extract(root: &Root, log: &mut Vec<Skip>) -> (chunk: Option<Chunk>)
    ensures
        chunk_view(chunk) == extracted(root@).chunk,
        final(log)@ == old(log)@ + extracted(root@).skips,
        chunk is Some ==> chunk->0@.count() > 0,
{
    let level = match expect(root.level.as_ref(), Shape::Compound, Skip::LevelNotCompound, log) {
        Some(level) => level,
        None => {
            return None;
        },
    };
    let x: i32 = match int_field(level, "xPos", Skip::CoordinatesNotInts, log) {
        Some(x) => x,
        None => {
            return None;
        },
    };
    let z: i32 = match int_field(level, "zPos", Skip::CoordinatesNotInts, log) {
        Some(z) => z,
        None => {
            return None;
        },
    };
    let items = match expect(
        level.field("TileEntities"),
        Shape::List,
        Skip::TileEntitiesNotList,
        log,
    ) {
        Some(Node::List(items)) => items,
        _ => {
            return None;
        },
    };
    let block_entities = read_entities(items, log);
    if block_entities.len() > 0 {
        Some(Chunk { x, z, block_entities })
    } else {
        None
    }
}

} // verus!
