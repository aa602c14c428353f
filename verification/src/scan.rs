//! Scanning a region: each of its slots is decoded, the chunk in it is
//! extracted and offered to the ranked set. The first failure ends the scan.

use crate::chunk::{extract, extracted, ChunkView};
use crate::error::ScanError;
use crate::payload::{decode, decoded, Root, RootView};
use crate::rank::{lemma_position_bounds, position, with_chunk, RankedChunkSet};
use crate::region::{header_at, read_header, read_record, record_at, SLOT_COUNT};
use crate::skip::Skip;
use crate::text::{push_signed, signed_decimal};
use vstd::prelude::*;

verus! {

/// The directory that holds a dimension's regions, as the names that lead
/// to it from the world directory. Dimension 0 keeps its regions at the top;
/// any other dimension has a directory of its own.
pub open spec fn region_directory(dimension: int) -> Seq<Seq<char>> {
    if dimension == 0 {
        seq!["region"@]
    } else {
        seq!["DIM"@ + signed_decimal(dimension), "region"@]
    }
}

/// The characters of each name.
pub open spec fn name_views(names: Seq<String>) -> Seq<Seq<char>> {
    Seq::new(names.len(), |i: int| names[i]@)
}

/// Names the directory that holds the regions of `dimension`.
pub fn region_directory_of(dimension: i32) -> (names: Vec<String>)
    ensures
        name_views(names@) == region_directory(dimension as int),
{
    let mut names: Vec<String> = Vec::new();
    if dimension != 0 {
        let mut name = "DIM".to_owned();
        push_signed(&mut name, dimension);
        names.push(name);
    }
    names.push("region".to_owned());
    names
}

/// What slot `slot` of a region holds: nothing if its header counts no
/// sectors, whatever else the region holds; else the root decoded from the
/// record that the header points at; or the failure that ends the scan.
pub open spec fn slot_root(region: Seq<u8>, slot: int) -> Result<Option<RootView>, ScanError> {
    match header_at(region, slot) {
        Err(error) => Err(error),
        Ok(header) => if header.is_empty() {
            Ok(None)
        } else {
            match record_at(region, header.byte_offset()) {
                Err(error) => Err(error),
                Ok(record) => match decoded(record.scheme, record.payload) {
                    Err(error) => Err(error),
                    Ok(root) => Ok(Some(root)),
                },
            }
        },
    }
}

/// Whether `root` is the outcome that `expected` describes: the same
/// failure, the same absence, or a root with the same value.
pub open spec fn slot_agrees(
    root: Result<Option<Root>, ScanError>,
    expected: Result<Option<RootView>, ScanError>,
) -> bool {
    match root {
        Ok(Some(root)) => expected == Ok::<Option<RootView>, ScanError>(Some(root@)),
        Ok(None) => expected == Ok::<Option<RootView>, ScanError>(None),
        Err(error) => expected == Err::<Option<RootView>, ScanError>(error),
    }
}

/// Decodes the chunk stored in slot `slot` of `region`, if the slot stores
/// one. An empty slot is no error, and no byte behind the header table is
/// looked at for it.
pub fn decode_slot(region: &[u8], slot: usize) -> (root: Result<Option<Root>, ScanError>)
    requires
        slot < SLOT_COUNT,
    ensures
        slot_agrees(root, slot_root(region@, slot as int)),
{
    let header = match read_header(region, slot) {
        Ok(header) => header,
        Err(error) => {
            return Err(error);
        },
    };
    if !header.stores_chunk() {
        return Ok(None);
    }
    let record = match read_record(region, header.offset_in_bytes()) {
        Ok(record) => record,
        Err(error) => {
            return Err(error);
        },
    };
    match decode(record.scheme, record.payload) {
        Ok(root) => Ok(Some(root)),
        Err(error) => Err(error),
    }
}

/// Where a scan stands: the ranked chunks, the anomalies so far, and the
/// failure that ended it, if one did.
pub struct ScanState {
    pub chunks: Seq<ChunkView>,
    pub skips: Seq<Skip>,
    pub failure: Option<ScanError>,
}

/// The state after a decoded root was taken in: its anomalies are recorded,
/// and its chunk, if one is left of it, is offered to the ranked set.
pub open spec fn after_root(state: ScanState, root: RootView) -> ScanState {
    let outcome = extracted(root);
    ScanState {
        chunks: match outcome.chunk {
            Some(chunk) => with_chunk(state.chunks, chunk),
            None => state.chunks,
        },
        skips: state.skips + outcome.skips,
        failure: state.failure,
    }
}

/// The state after slot `slot` was scanned. A scan that has failed stays as
/// it is; an empty slot changes nothing.
pub open spec fn after_slot(state: ScanState, region: Seq<u8>, slot: int) -> ScanState {
    if state.failure is Some {
        state
    } else {
        match slot_root(region, slot) {
            Err(error) => ScanState { failure: Some(error), ..state },
            Ok(None) => state,
            Ok(Some(root)) => after_root(state, root),
        }
    }
}

/// The state after the first `slots` slots were scanned in order.
pub open spec fn after_slots(state: ScanState, region: Seq<u8>, slots: nat) -> ScanState
    decreases slots,
{
    if slots == 0 {
        state
    } else {
        after_slot(after_slots(state, region, (slots - 1) as nat), region, slots - 1)
    }
}

/// A scan that has not failed.
pub open spec fn running(chunks: Seq<ChunkView>, skips: Seq<Skip>) -> ScanState {
    ScanState { chunks, skips, failure: None }
}

/// A scan that ended as `outcome` says.
pub open spec fn ended(
    chunks: Seq<ChunkView>,
    skips: Seq<Skip>,
    outcome: Result<(), ScanError>,
) -> ScanState {
    ScanState { chunks, skips, failure: failure_of(outcome) }
}

/// The failure that an outcome carries.
pub open spec fn failure_of(outcome: Result<(), ScanError>) -> Option<ScanError> {
    match outcome {
        Ok(_) => None,
        Err(error) => Some(error),
    }
}

/// Takes a decoded root into the scan: extracts its chunk, records what was
/// ignored, and offers the chunk to the ranked set.
pub fn take_root(root: &Root, set: &mut RankedChunkSet, log: &mut Vec<Skip>)
    ensures
        running(final(set)@, final(log)@) == after_root(running(old(set)@, old(log)@), root@),
{
    match extract(root, log) {
        Some(chunk) => {
            set.insert(chunk);
        },
        None => {},
    }
}

/// Scans slot `slot` of `region` into `set` and `log`.
pub fn scan_slot(region: &[u8], slot: usize, set: &mut RankedChunkSet, log: &mut Vec<Skip>) -> (outcome:
    Result<(), ScanError>)
    requires
        slot < SLOT_COUNT,
    ensures
        ended(final(set)@, final(log)@, outcome) == after_slot(
            running(old(set)@, old(log)@),
            region@,
            slot as int,
        ),
{
    match decode_slot(region, slot) {
        Err(error) => Err(error),
        Ok(None) => Ok(()),
        Ok(Some(root)) => {
            take_root(&root, set, log);
            Ok(())
        },
    }
}

/// Scans all slots of `region` in order into `set` and `log`, up to the
/// first failure.
pub fn scan_region(region: &[u8], set: &mut RankedChunkSet, log: &mut Vec<Skip>) -> (outcome: Result<
    (),
    ScanError,
>)
    ensures
        ended(final(set)@, final(log)@, outcome) == after_slots(
            running(old(set)@, old(log)@),
            region@,
            SLOT_COUNT as nat,
        ),
{
    let ghost start = running(set@, log@);
    let mut slot: usize = 0;
    while slot < SLOT_COUNT
        invariant
            slot <= SLOT_COUNT,
            start == running(old(set)@, old(log)@),
            running(set@, log@) == after_slots(start, region@, slot as nat),
        decreases SLOT_COUNT - slot,
    {
        match scan_slot(region, slot, set, log) {
            Ok(_) => {},
            Err(error) => {
                proof {
                    lemma_failure_stays(start, region@, (slot + 1) as nat, SLOT_COUNT as nat);
                }
                return Err(error);
            },
        }
        slot += 1;
    }
    Ok(())
}

/// Once a scan has failed, further slots change nothing.
pub proof fn lemma_failure_stays(state: ScanState, region: Seq<u8>, failed: nat, slots: nat)
    requires
        failed <= slots,
        after_slots(state, region, failed).failure is Some,
    ensures
        after_slots(state, region, slots) == after_slots(state, region, failed),
    decreases slots,
{
    if failed < slots {
        lemma_failure_stays(state, region, failed, (slots - 1) as nat);
    }
}

/// A slot whose header counts no sectors yields no chunk and no anomaly,
/// and what the scan makes of it does not depend on any byte of the region
/// but the slot's header word.
pub proof fn lemma_empty_slot(state: ScanState, region: Seq<u8>, slot: int)
    requires
        header_at(region, slot) is Ok,
        header_at(region, slot)->Ok_0.is_empty(),
    ensures
        slot_root(region, slot) == Ok::<Option<RootView>, ScanError>(None),
        after_slot(state, region, slot) == state,
        forall|other: Seq<u8>|
            header_at(other, slot) == header_at(region, slot) ==> #[trigger] slot_root(other, slot)
                == slot_root(region, slot),
{
}

/// A record whose scheme byte is neither 1 nor 2 ends the scan with that
/// failure: its chunk is not skipped, and nothing is made of its payload.
pub proof fn lemma_unknown_scheme(state: ScanState, region: Seq<u8>, slot: int)
    requires
        state.failure is None,
        header_at(region, slot) is Ok,
        !header_at(region, slot)->Ok_0.is_empty(),
        record_at(region, header_at(region, slot)->Ok_0.byte_offset()) is Ok,
        record_at(region, header_at(region, slot)->Ok_0.byte_offset())->Ok_0.scheme != 1,
        record_at(region, header_at(region, slot)->Ok_0.byte_offset())->Ok_0.scheme != 2,
    ensures
        after_slot(state, region, slot) == (ScanState {
            failure: Some(
                ScanError::UnknownScheme(
                    record_at(region, header_at(region, slot)->Ok_0.byte_offset())->Ok_0.scheme,
                ),
            ),
            ..state
        }),
{
}

/// Whether every chunk has at least one block entity.
pub open spec fn all_populated(chunks: Seq<ChunkView>) -> bool {
    forall|i: int| 0 <= i < chunks.len() ==> (#[trigger] chunks[i]).count() > 0
}

/// Extraction gives no chunk without block entities, so a scan never puts
/// one into the ranked set.
pub proof fn lemma_scan_populated(state: ScanState, region: Seq<u8>, slots: nat)
    requires
        all_populated(state.chunks),
    ensures
        all_populated(after_slots(state, region, slots).chunks),
    decreases slots,
{
    if slots > 0 {
        let before = after_slots(state, region, (slots - 1) as nat);
        lemma_scan_populated(state, region, (slots - 1) as nat);
        let after = after_slot(before, region, slots - 1);
        if after.chunks != before.chunks {
            let root = slot_root(region, slots - 1)->Ok_0->0;
            let chunk = extracted(root).chunk->0;
            let at = position(before.chunks, chunk.key());
            lemma_position_bounds(before.chunks, chunk.key());
            // The slot put a chunk with block entities among those that were there.
            assert(chunk.count() > 0);
            assert(after.chunks == before.chunks.insert(at, chunk));
            assert forall|i: int| 0 <= i < after.chunks.len() implies (#[trigger] after.chunks[i]).count()
                > 0 by {
                if i < at {
                    assert(after.chunks[i] == before.chunks[i]);
                } else if i > at {
                    assert(after.chunks[i] == before.chunks[i - 1]);
                }
            }
        }
    }
}

} // verus!
