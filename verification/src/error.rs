//! Failures that end a scan: the region is not what a region has to be.

use crate::text::{decimal, push_decimal};
use vstd::prelude::*;

verus! {

/// Why a region could not be scanned to its end. None of these is
/// recovered from: what follows a broken record cannot be trusted.
#[derive(Clone, Copy, Debug, PartialEq, Eq, Structural)]
pub enum ScanError {
    /// The header table ends before the slot's word.
    ChunkOffset,
    /// The region ends before the record's length prefix.
    ChunkSize,
    /// The region ends before the record's compression-scheme byte.
    CompressionScheme,
    /// The compression-scheme byte is neither 1 nor 2.
    UnknownScheme(u8),
    /// The payload could not be decompressed or holds no well-formed tree.
    Payload,
}

impl ScanError {
    /// The line that reports this failure.
    pub open spec fn text(self) -> Seq<char> {
        match self {
            ScanError::ChunkOffset => "failed to read chunk offset"@,
            ScanError::ChunkSize => "failed to read chunk size"@,
            ScanError::CompressionScheme => "failed to read chunk compression scheme"@,
            ScanError::UnknownScheme(n) => "Unrecognised compression scheme "@ + decimal(n as nat),
            ScanError::Payload => "failed to read chunk"@,
        }
    }

    pub fn message(&self) -> (line: String)
        ensures
            line@ == self.text(),
    {
        match self {
            ScanError::ChunkOffset => "failed to read chunk offset".to_owned(),
            ScanError::ChunkSize => "failed to read chunk size".to_owned(),
            ScanError::CompressionScheme => "failed to read chunk compression scheme".to_owned(),
            ScanError::UnknownScheme(n) => {
                let mut line = "Unrecognised compression scheme ".to_owned();
                push_decimal(&mut line, *n as u64);
                line
            },
            ScanError::Payload => "failed to read chunk".to_owned(),
        }
    }
}

} // verus!
