//! Decoding a record's payload: the compression scheme picks the
//! decompressor, the decompressed bytes are checked for lengths that the
//! parser cannot take, and the parser makes a tree of them.

use crate::error::ScanError;
use crate::lengths::{check_lengths, lengths_fit};
use crate::tree::{Field, Node, Tree};
use std::io::Read;
use vstd::prelude::*;

verus! {

#[verifier::external_type_specification]
#[verifier::external_body]
pub struct ExBlob(nbt::Blob);

#[verifier::external_type_specification]
#[verifier::external_body]
pub struct ExValue(nbt::Value);

#[verifier::external_type_specification]
#[verifier::external_body]
pub struct ExError(nbt::Error);

/// The bytes that `flate2::read::GzDecoder` reads out of `payload`, or
/// nothing where it fails.
pub uninterp spec fn gzip_inflated(payload: Seq<u8>) -> Option<Seq<u8>>;

/// The bytes that `flate2::read::ZlibDecoder` reads out of `payload`, or
/// nothing where it fails.
pub uninterp spec fn zlib_inflated(payload: Seq<u8>) -> Option<Seq<u8>>;

/// The root fields that `nbt::Blob::from_reader` reads from `bytes`, or
/// nothing where it fails.
pub uninterp spec fn parsed_fields(bytes: Seq<u8>) -> Option<Map<Seq<char>, Tree>>;

/// The named fields that a blob holds.
pub uninterp spec fn blob_fields(blob: nbt::Blob) -> Map<Seq<char>, Tree>;

/// The tree that an `nbt::Value` stands for.
pub uninterp spec fn value_tree(value: nbt::Value) -> Tree;

/// `flate2::read::GzDecoder` on a byte slice, read to its end. Nothing is
/// claimed of the result but that it depends on the payload alone: the same
/// payload gives the same bytes, or fails, every time.
#[verifier::external_body]
fn gunzip(payload: &[u8]) -> (bytes: Result<Vec<u8>, std::io::Error>)
    ensures
        match bytes {
            Ok(bytes) => gzip_inflated(payload@) == Some(bytes@),
            Err(_) => gzip_inflated(payload@) is None,
        },
{
    let mut bytes = Vec::new();
    flate2::read::GzDecoder::new(payload).read_to_end(&mut bytes)?;
    Ok(bytes)
}

/// `flate2::read::ZlibDecoder` on a byte slice, read to its end; as for gzip.
#[verifier::external_body]
fn unzlib(payload: &[u8]) -> (bytes: Result<Vec<u8>, std::io::Error>)
    ensures
        match bytes {
            Ok(bytes) => zlib_inflated(payload@) == Some(bytes@),
            Err(_) => zlib_inflated(payload@) is None,
        },
{
    let mut bytes = Vec::new();
    flate2::read::ZlibDecoder::new(payload).read_to_end(&mut bytes)?;
    Ok(bytes)
}

/// `nbt::Blob::from_reader` on a byte slice. Nothing is claimed of the
/// result but that it depends on the bytes alone. The reader reserves room
/// for as many elements as a length prefix announces before it reads them,
/// and panics where that is more than a vector can hold, as for every
/// negative length; and it calls itself once for each list and compound
/// inside another. The `requires` leaves out all data in which the reader
/// comes upon such a length, or upon one that the rest of the data cannot
/// fill, or upon more than `MAX_DEPTH` lists and compounds inside each
/// other: `lengths_fit` walks the data as the reader does.
#[verifier::external_body]
fn read_blob(bytes: &[u8]) -> (blob: Result<nbt::Blob, nbt::Error>)
    requires
        lengths_fit(bytes@),
    ensures
        match blob {
            Ok(blob) => parsed_fields(bytes@) == Some(blob_fields(blob)),
            Err(_) => parsed_fields(bytes@) is None,
        },
{
    let mut source = bytes;
    nbt::Blob::from_reader(&mut source)
}

/// `nbt::Blob::get`: the value stored under `name`, if the blob has one.
#[verifier::external_body]
fn blob_get<'a>(blob: &'a nbt::Blob, name: &'static str) -> (value: Option<&'a nbt::Value>)
    ensures
        match value {
            Some(value) => blob_fields(*blob).contains_key(name@) && blob_fields(*blob)[name@]
                == value_tree(*value),
            None => !blob_fields(*blob).contains_key(name@),
        },
{
    blob.get(name)
}

/// Copies an `nbt::Value` into a [`Node`], variant by variant.
/// Integers, strings, lists and compounds keep what they hold; every other
/// variant becomes [`Node::Other`].
#[verifier::external_body]
fn node_of(value: &nbt::Value) -> (node: Node)
    ensures
        node@ == value_tree(*value),
{
    match value {
        nbt::Value::Int(i) => Node::Int(*i),
        nbt::Value::String(s) => Node::Text(s.clone()),
        nbt::Value::List(items) => Node::List(items.iter().map(node_of).collect()),
        nbt::Value::Compound(fields) => Node::Compound(
            fields.iter().map(|(k, v)| Field { name: k.clone(), value: node_of(v) }).collect(),
        ),
        _ => Node::Other,
    }
}

/// How a record's payload is compressed.
#[derive(Clone, Copy, Debug, PartialEq, Eq, Structural)]
pub enum Scheme {
    Gzip,
    Zlib,
}

impl Scheme {
    /// The scheme that a record's scheme byte stands for.
    pub open spec fn of_byte(byte: u8) -> Option<Scheme> {
        if byte == 1 {
            Some(Scheme::Gzip)
        } else if byte == 2 {
            Some(Scheme::Zlib)
        } else {
            None
        }
    }

    pub fn from_byte(byte: u8) -> (scheme: Option<Scheme>)
        ensures
            scheme == Scheme::of_byte(byte),
    {
        if byte == 1 {
            Some(Scheme::Gzip)
        } else if byte == 2 {
            Some(Scheme::Zlib)
        } else {
            None
        }
    }
}

/// What the library reads of a decoded chunk: the `Level` field of its root.
#[derive(Debug)]
pub struct Root {
    pub level: Option<Node>,
}

/// The mathematical value of a [`Root`].
pub struct RootView {
    pub level: Option<Tree>,
}

impl View for Root {
    type V = RootView;

    open spec fn view(&self) -> RootView {
        RootView {
            level: match self.level {
                Some(node) => Some(node@),
                None => None,
            },
        }
    }
}

/// The root that a map of root fields stands for.
pub open spec fn root_of(fields: Map<Seq<char>, Tree>) -> RootView {
    RootView {
        level: if fields.contains_key("Level"@) {
            Some(fields["Level"@])
        } else {
            None
        },
    }
}

/// The bytes behind a payload compressed with `scheme`.
pub open spec fn inflated(scheme: Scheme, payload: Seq<u8>) -> Option<Seq<u8>> {
    match scheme {
        Scheme::Gzip => gzip_inflated(payload),
        Scheme::Zlib => zlib_inflated(payload),
    }
}

/// What parsing uncompressed bytes gives: a failure for bytes that are not
/// fit to be parsed and for bytes that the parser refuses, else the root.
pub open spec fn parsed(bytes: Seq<u8>) -> Result<RootView, ScanError> {
    if !lengths_fit(bytes) {
        Err(ScanError::Payload)
    } else {
        match parsed_fields(bytes) {
            None => Err(ScanError::Payload),
            Some(fields) => Ok(root_of(fields)),
        }
    }
}

/// What decoding a payload gives, for a scheme byte and the bytes behind it.
/// A scheme byte other than 1 and 2 is an error, and so is a payload that
/// cannot be decompressed and parsed.
pub open spec fn decoded(scheme: u8, payload: Seq<u8>) -> Result<RootView, ScanError> {
    match Scheme::of_byte(scheme) {
        None => Err(ScanError::UnknownScheme(scheme)),
        Some(known) => match inflated(known, payload) {
            None => Err(ScanError::Payload),
            Some(bytes) => parsed(bytes),
        },
    }
}

/// Whether `root` is the outcome that `expected` describes: the same
/// failure, or a root with the same value.
pub open spec fn agrees(root: Result<Root, ScanError>, expected: Result<RootView, ScanError>) -> bool {
    match root {
        Ok(root) => expected == Ok::<RootView, ScanError>(root@),
        Err(error) => expected == Err::<RootView, ScanError>(error),
    }
}

/// Decompresses `payload` as `scheme` says.
pub fn inflate(scheme: Scheme, payload: &[u8]) -> (bytes: Result<Vec<u8>, ScanError>)
    ensures
        match inflated(scheme, payload@) {
            Some(expected) => bytes is Ok && bytes->Ok_0@ == expected,
            None => bytes == Err::<Vec<u8>, ScanError>(ScanError::Payload),
        },
{
    let inflated = match scheme {
        Scheme::Gzip => gunzip(payload),
        Scheme::Zlib => unzlib(payload),
    };
    match inflated {
        Ok(bytes) => Ok(bytes),
        Err(_) => Err(ScanError::Payload),
    }
}

/// Parses the tree in uncompressed `bytes` and keeps of it what the library
/// reads. Bytes that are not fit to be parsed are not handed to the parser:
/// they fail as a payload that the parser refuses.
pub fn parse(bytes: &[u8]) -> (root: Result<Root, ScanError>)
    ensures
        agrees(root, parsed(bytes@)),
        !lengths_fit(bytes@) ==> root == Err::<Root, ScanError>(ScanError::Payload),
{
    if !check_lengths(bytes) {
        return Err(ScanError::Payload);
    }
    match read_blob(bytes) {
        Ok(blob) => {
            let level = match blob_get(&blob, "Level") {
                Some(value) => Some(node_of(value)),
                None => None,
            };
            Ok(Root { level })
        },
        Err(_) => Err(ScanError::Payload),
    }
}

/// Decodes the payload of a record from its scheme byte and the bytes that
/// follow it: decompresses it as the scheme says and parses the tree in it.
pub fn decode(scheme: u8, payload: &[u8]) -> (root: Result<Root, ScanError>)
    ensures
        agrees(root, decoded(scheme, payload@)),
        Scheme::of_byte(scheme) is None ==> root == Err::<Root, ScanError>(
            ScanError::UnknownScheme(scheme),
        ),
{
    let known = match Scheme::from_byte(scheme) {
        Some(known) => known,
        None => {
            return Err(ScanError::UnknownScheme(scheme));
        },
    };
    match inflate(known, payload) {
        Ok(bytes) => parse(bytes.as_slice()),
        Err(error) => Err(error),
    }
}

} // verus!
