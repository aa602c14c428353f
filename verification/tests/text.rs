use block_entity_finder::error::ScanError;
use block_entity_finder::skip::Skip;
use block_entity_finder::text::{decimal_width, push_decimal, push_right_aligned, push_signed};

fn decimal_of(n: u64) -> String {
    let mut out = String::new();
    push_decimal(&mut out, n);
    out
}

fn signed_of(i: i32) -> String {
    let mut out = String::new();
    push_signed(&mut out, i);
    out
}

#[test]
fn decimal_of_zero_is_one_digit() {
    assert_eq!(decimal_of(0), "0");
}

#[test]
fn decimal_keeps_every_digit_in_order() {
    assert_eq!(decimal_of(7), "7");
    assert_eq!(decimal_of(10), "10");
    assert_eq!(decimal_of(1234567890), "1234567890");
    assert_eq!(decimal_of(u64::MAX), "18446744073709551615");
}

#[test]
fn decimal_appends_to_what_is_there() {
    let mut out = String::from("n = ");
    push_decimal(&mut out, 42);
    assert_eq!(out, "n = 42");
}

#[test]
fn signed_decimal_agrees_with_std() {
    for i in [0, 1, -1, 9, -9, 10, -10, 2147483647, -2147483647, i32::MIN] {
        assert_eq!(signed_of(i), format!("{}", i));
    }
}

#[test]
fn decimal_width_counts_digits() {
    assert_eq!(decimal_width(0), 1);
    assert_eq!(decimal_width(9), 1);
    assert_eq!(decimal_width(10), 2);
    assert_eq!(decimal_width(99), 2);
    assert_eq!(decimal_width(100), 3);
    assert_eq!(decimal_width(u64::MAX), 20);
}

#[test]
fn right_aligned_pads_on_the_left() {
    let mut out = String::new();
    push_right_aligned(&mut out, 7, 10);
    assert_eq!(out, "         7");
    assert_eq!(out, format!("{:10}", 7));
}

#[test]
fn right_aligned_leaves_wide_numbers_alone() {
    let mut out = String::new();
    push_right_aligned(&mut out, 12345678901, 10);
    assert_eq!(out, "12345678901");
    let mut exact = String::new();
    push_right_aligned(&mut exact, 1234567890, 10);
    assert_eq!(exact, "1234567890");
    let mut none = String::new();
    push_right_aligned(&mut none, 5, 0);
    assert_eq!(none, "5");
}

#[test]
fn skip_messages_name_what_was_ignored() {
    assert_eq!(Skip::LevelNotCompound.message(), "'Level' is not a TAG_Compound, ignoring.");
    assert_eq!(
        Skip::CoordinatesNotInts.message(),
        "chunk coordinates not integers, ignoring chunk."
    );
    assert_eq!(Skip::TileEntitiesNotList.message(), "TileEntities is not a list, ignoring.");
    assert_eq!(
        Skip::EntityNotCompound.message(),
        "block entity is not a TAG_Compound, ignoring."
    );
    assert_eq!(
        Skip::EntityIdNotString.message(),
        "block entity ID not a TAG_String, ignoring block entity."
    );
    assert_eq!(
        Skip::EntityXNotInt.message(),
        "block entity X coordinate not an TAG_Int, ignoring block entity."
    );
    assert_eq!(
        Skip::EntityYNotInt.message(),
        "block entity Y coordinate not an TAG_Int, ignoring block entity."
    );
    assert_eq!(
        Skip::EntityZNotInt.message(),
        "block entity Z coordinate not an TAG_Int, ignoring block entity."
    );
}

#[test]
fn skips_are_chunk_level_or_entity_level() {
    assert!(Skip::LevelNotCompound.is_chunk_level());
    assert!(Skip::CoordinatesNotInts.is_chunk_level());
    assert!(Skip::TileEntitiesNotList.is_chunk_level());
    assert!(!Skip::EntityNotCompound.is_chunk_level());
    assert!(!Skip::EntityIdNotString.is_chunk_level());
    assert!(!Skip::EntityXNotInt.is_chunk_level());
    assert!(!Skip::EntityYNotInt.is_chunk_level());
    assert!(!Skip::EntityZNotInt.is_chunk_level());
}

#[test]
fn scan_error_messages() {
    assert_eq!(ScanError::ChunkOffset.message(), "failed to read chunk offset");
    assert_eq!(ScanError::ChunkSize.message(), "failed to read chunk size");
    assert_eq!(
        ScanError::CompressionScheme.message(),
        "failed to read chunk compression scheme"
    );
    assert_eq!(ScanError::UnknownScheme(3).message(), "Unrecognised compression scheme 3");
    assert_eq!(ScanError::UnknownScheme(255).message(), "Unrecognised compression scheme 255");
    assert_eq!(ScanError::Payload.message(), "failed to read chunk");
}
