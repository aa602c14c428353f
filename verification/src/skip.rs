//! Recoverable anomalies: what was ignored while a chunk was read, and why.

use vstd::prelude::*;

verus! {

/// A shape mismatch inside a readable tree. Each one drops a block entity
/// or a chunk and lets the scan go on; none of them ends a run.
#[derive(Clone, Copy, Debug, PartialEq, Eq, Structural)]
pub enum Skip {
    /// The root has no `Level` field, or it is not a compound.
    LevelNotCompound,
    /// `xPos` or `zPos` is missing or not an integer.
    CoordinatesNotInts,
    /// `TileEntities` is missing or not a list.
    TileEntitiesNotList,
    /// An element of `TileEntities` is not a compound.
    EntityNotCompound,
    /// A block entity's `id` is missing or not a string.
    EntityIdNotString,
    /// A block entity's `x` is missing or not an integer.
    EntityXNotInt,
    /// A block entity's `y` is missing or not an integer.
    EntityYNotInt,
    /// A block entity's `z` is missing or not an integer.
    EntityZNotInt,
}

impl Skip {
    /// The line that reports this anomaly.
    pub open spec fn text(self) -> Seq<char> {
        match self {
            Skip::LevelNotCompound => "'Level' is not a TAG_Compound, ignoring."@,
            Skip::CoordinatesNotInts => "chunk coordinates not integers, ignoring chunk."@,
            Skip::TileEntitiesNotList => "TileEntities is not a list, ignoring."@,
            Skip::EntityNotCompound => "block entity is not a TAG_Compound, ignoring."@,
            Skip::EntityIdNotString => "block entity ID not a TAG_String, ignoring block entity."@,
            Skip::EntityXNotInt => "block entity X coordinate not an TAG_Int, ignoring block entity."@,
            Skip::EntityYNotInt => "block entity Y coordinate not an TAG_Int, ignoring block entity."@,
            Skip::EntityZNotInt => "block entity Z coordinate not an TAG_Int, ignoring block entity."@,
        }
    }

    /// Whether the anomaly drops the whole chunk rather than one block entity.
    pub open spec fn drops_chunk(self) -> bool {
        self == Skip::LevelNotCompound || self == Skip::CoordinatesNotInts || self
            == Skip::TileEntitiesNotList
    }

    pub fn message(&self) -> (line: String)
        ensures
            line@ == self.text(),
    {
        let literal = match self {
            Skip::LevelNotCompound => "'Level' is not a TAG_Compound, ignoring.",
            Skip::CoordinatesNotInts => "chunk coordinates not integers, ignoring chunk.",
            Skip::TileEntitiesNotList => "TileEntities is not a list, ignoring.",
            Skip::EntityNotCompound => "block entity is not a TAG_Compound, ignoring.",
            Skip::EntityIdNotString => "block entity ID not a TAG_String, ignoring block entity.",
            Skip::EntityXNotInt => "block entity X coordinate not an TAG_Int, ignoring block entity.",
            Skip::EntityYNotInt => "block entity Y coordinate not an TAG_Int, ignoring block entity.",
            Skip::EntityZNotInt => "block entity Z coordinate not an TAG_Int, ignoring block entity.",
        };
        literal.to_owned()
    }

    pub fn is_chunk_level(&self) -> (b: bool)
        ensures
            b == self.drops_chunk(),
    {
        match self {
            Skip::LevelNotCompound | Skip::CoordinatesNotInts | Skip::TileEntitiesNotList => true,
            _ => false,
        }
    }
}

} // verus!
