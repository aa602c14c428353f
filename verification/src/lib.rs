//! Finds the chunks of a Minecraft world that hold the most block entities.
//!
//! The library reads region containers held in memory, decodes the chunk
//! stored in each slot, extracts its block entities, ranks the chunks and
//! renders the report. Reading files and printing are left to the caller.

pub mod chunk;
pub mod error;
pub mod lengths;
pub mod order;
pub mod payload;
pub mod rank;
pub mod region;
pub mod report;
pub mod scan;
pub mod skip;
pub mod text;
pub mod tree;
