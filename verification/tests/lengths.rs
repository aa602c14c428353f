use block_entity_finder::error::ScanError;
use block_entity_finder::lengths::{check_lengths, MAX_DEPTH};
use block_entity_finder::payload::parse;
use block_entity_finder::tree::Node;

fn named(tag: u8, name: &str) -> Vec<u8> {
    let mut out = vec![tag];
    out.extend_from_slice(&(name.len() as u16).to_be_bytes());
    out.extend_from_slice(name.as_bytes());
    out
}

fn root(fields: &[u8]) -> Vec<u8> {
    let mut out = vec![10u8, 0, 0];
    out.extend_from_slice(fields);
    out.push(0);
    out
}

fn list_field(name: &str, tag: u8, length: i32, items: &[u8]) -> Vec<u8> {
    let mut out = named(9, name);
    out.push(tag);
    out.extend_from_slice(&length.to_be_bytes());
    out.extend_from_slice(items);
    out
}

fn array_field(tag: u8, name: &str, length: i32, items: &[u8]) -> Vec<u8> {
    let mut out = named(tag, name);
    out.extend_from_slice(&length.to_be_bytes());
    out.extend_from_slice(items);
    out
}

fn nested_compounds(levels: usize) -> Vec<u8> {
    // `levels` compounds inside each other, the root among them.
    let mut out = vec![10u8, 0, 0];
    for _ in 1..levels {
        out.extend_from_slice(&named(10, "c"));
    }
    for _ in 0..levels {
        out.push(0);
    }
    out
}

fn nested_lists(levels: usize) -> Vec<u8> {
    // A root compound and `levels - 1` lists inside each other, each with
    // one element; the innermost holds one byte.
    let mut out = vec![10u8, 0, 0];
    out.extend_from_slice(&named(9, "l"));
    for _ in 2..levels {
        out.push(9);
        out.extend_from_slice(&1i32.to_be_bytes());
    }
    out.push(1);
    out.extend_from_slice(&1i32.to_be_bytes());
    out.push(42);
    out.push(0);
    out
}

#[test]
fn depth_limit_is_that_of_the_format() {
    assert_eq!(MAX_DEPTH, 512);
}

#[test]
fn data_that_is_no_compound_is_left_to_the_parser() {
    assert!(check_lengths(&[]));
    assert!(check_lengths(&[0]));
    assert!(check_lengths(&[9, 0, 0, 3, 0xff, 0xff, 0xff, 0xff]));
    assert!(check_lengths(&[10]));
    assert!(check_lengths(&[10, 0]));
    assert!(check_lengths(&[10, 0, 5, b'a']));
}

#[test]
fn empty_compound_is_fit() {
    assert!(check_lengths(&[10, 0, 0, 0]));
    assert!(check_lengths(&root(&[])));
    assert!(check_lengths(&[10, 0, 2, b'h', b'i', 0]));
}

#[test]
fn scalars_and_strings_are_fit() {
    let mut fields = Vec::new();
    fields.extend_from_slice(&named(1, "b"));
    fields.push(1);
    fields.extend_from_slice(&named(2, "s"));
    fields.extend_from_slice(&[0, 1]);
    fields.extend_from_slice(&named(3, "i"));
    fields.extend_from_slice(&[0xff, 0xff, 0xff, 0xff]);
    fields.extend_from_slice(&named(4, "l"));
    fields.extend_from_slice(&[0x80, 0, 0, 0, 0, 0, 0, 0]);
    fields.extend_from_slice(&named(5, "f"));
    fields.extend_from_slice(&[0xff, 0xff, 0xff, 0xff]);
    fields.extend_from_slice(&named(6, "d"));
    fields.extend_from_slice(&[0xff; 8]);
    fields.extend_from_slice(&named(8, "t"));
    fields.extend_from_slice(&[0, 3, b'a', b'b', b'c']);
    let bytes = root(&fields);
    assert!(check_lengths(&bytes));
    assert!(parse(&bytes).is_ok());
}

#[test]
fn negative_list_length_is_unfit() {
    assert!(!check_lengths(&root(&list_field("l", 3, -1, &[]))));
    assert!(!check_lengths(&root(&list_field("l", 0, -1, &[]))));
    assert!(!check_lengths(&root(&list_field("l", 10, i32::MIN, &[]))));
}

#[test]
fn negative_array_length_is_unfit() {
    for tag in [7u8, 11, 12] {
        assert!(!check_lengths(&root(&array_field(tag, "a", -1, &[]))));
        assert!(!check_lengths(&root(&array_field(tag, "a", i32::MIN, &[1, 2, 3]))));
    }
}

#[test]
fn length_that_the_data_cannot_fill_is_unfit() {
    assert!(!check_lengths(&root(&list_field("l", 1, 3, &[1]))));
    assert!(!check_lengths(&root(&list_field("l", 3, i32::MAX, &[0, 0, 0, 1]))));
    assert!(!check_lengths(&root(&array_field(7, "a", 3, &[1]))));
    assert!(!check_lengths(&root(&array_field(11, "a", 2, &[0, 0, 0, 1, 0, 0]))));
    assert!(!check_lengths(&root(&array_field(12, "a", 1, &[0; 6]))));
    assert!(!check_lengths(&root(&array_field(12, "a", i32::MAX, &[0; 8]))));
}

#[test]
fn lengths_that_the_data_fills_are_fit() {
    let mut fields = Vec::new();
    fields.extend_from_slice(&list_field("empty", 0, 0, &[]));
    fields.extend_from_slice(&list_field("bytes", 1, 3, &[1, 2, 3]));
    fields.extend_from_slice(&list_field("ints", 3, 2, &[0, 0, 0, 1, 0, 0, 0, 2]));
    fields.extend_from_slice(&array_field(7, "ba", 2, &[1, 2]));
    fields.extend_from_slice(&array_field(11, "ia", 1, &[0, 0, 0, 1]));
    fields.extend_from_slice(&array_field(12, "la", 1, &[0; 8]));
    fields.extend_from_slice(&list_field("strings", 8, 2, &[0, 1, b'a', 0, 0]));
    fields.extend_from_slice(&list_field("compounds", 10, 2, &[0, 0]));
    fields.extend_from_slice(&list_field("lists", 9, 1, &[1, 0, 0, 0, 1, 7]));
    let bytes = root(&fields);
    assert!(check_lengths(&bytes));
    assert!(parse(&bytes).is_ok());
}

#[test]
fn length_filled_to_the_last_byte_is_fit() {
    // The end tag of the root is taken for the array's last byte: the walk
    // goes where the parser goes, and the parser then fails by itself.
    let bytes = root(&array_field(11, "a", 2, &[0, 0, 0, 1, 0, 0, 0]));
    assert!(check_lengths(&bytes));
    assert_eq!(parse(&bytes).err(), Some(ScanError::Payload));
}

#[test]
fn bad_length_in_the_last_element_of_a_list_is_found() {
    let mut items = vec![9u8];
    items.extend_from_slice(&1i32.to_be_bytes());
    items.push(3);
    items.extend_from_slice(&(-1i32).to_be_bytes());
    assert!(!check_lengths(&root(&list_field("l", 9, 1, &items))));
}

#[test]
fn bad_length_inside_a_list_of_compounds_is_found() {
    let mut item = named(7, "a");
    item.extend_from_slice(&(-5i32).to_be_bytes());
    item.push(0);
    let mut items = vec![0u8];
    items.extend_from_slice(&item);
    assert!(!check_lengths(&root(&list_field("l", 10, 2, &items))));
}

#[test]
fn bad_length_behind_the_root_is_not_looked_at() {
    let mut bytes = root(&[]);
    bytes.extend_from_slice(&array_field(7, "a", -1, &[]));
    assert!(check_lengths(&bytes));
    assert!(parse(&bytes).is_ok());
}

#[test]
fn bad_length_behind_a_tag_that_does_not_exist_is_not_reached() {
    let mut fields = named(13, "x");
    fields.extend_from_slice(&array_field(7, "a", -1, &[]));
    let bytes = root(&fields);
    assert!(check_lengths(&bytes));
    assert_eq!(parse(&bytes).err(), Some(ScanError::Payload));
}

#[test]
fn data_that_ends_early_is_left_to_the_parser() {
    let cut = [10u8, 0, 0, 9, 0, 1, b'l', 3, 0, 0];
    assert!(check_lengths(&cut));
    assert_eq!(parse(&cut).err(), Some(ScanError::Payload));
    let mut fields = named(3, "i");
    fields.extend_from_slice(&[0, 0]);
    assert!(check_lengths(&fields));
    let unended = [10u8, 0, 0, 1, 0, 1, b'b', 5];
    assert!(check_lengths(&unended));
    assert_eq!(parse(&unended).err(), Some(ScanError::Payload));
}

#[test]
fn nesting_up_to_the_limit_is_fit() {
    let bytes = nested_compounds(512);
    assert!(check_lengths(&bytes));
    assert!(parse(&bytes).is_ok());
    let lists = nested_lists(512);
    assert!(check_lengths(&lists));
    assert!(parse(&lists).is_ok());
}

#[test]
fn nesting_beyond_the_limit_is_unfit() {
    assert!(!check_lengths(&nested_compounds(513)));
    assert!(!check_lengths(&nested_lists(513)));
    assert_eq!(parse(&nested_compounds(513)).err(), Some(ScanError::Payload));
    assert_eq!(parse(&nested_compounds(100_000)).err(), Some(ScanError::Payload));
}

#[test]
fn written_tree_is_fit_and_parsed() {
    let mut tile = nbt::Map::new();
    tile.insert("id".to_string(), nbt::Value::String("minecraft:chest".to_string()));
    tile.insert("Items".to_string(), nbt::Value::List(vec![nbt::Value::Byte(1), nbt::Value::Byte(2)]));
    tile.insert("data".to_string(), nbt::Value::IntArray(vec![1, 2, 3]));
    tile.insert("more".to_string(), nbt::Value::LongArray(vec![-1, 2]));
    tile.insert("raw".to_string(), nbt::Value::ByteArray(vec![-1, 2, 3]));
    tile.insert("half".to_string(), nbt::Value::Double(0.5));
    let mut level = nbt::Map::new();
    level.insert("TileEntities".to_string(), nbt::Value::List(vec![nbt::Value::Compound(tile)]));
    level.insert("xPos".to_string(), nbt::Value::Int(-7));
    let mut blob = nbt::Blob::named("chunk");
    blob.insert("Level", nbt::Value::Compound(level)).unwrap();
    let mut bytes = Vec::new();
    blob.to_writer(&mut bytes).unwrap();
    assert!(check_lengths(&bytes));
    let root = parse(&bytes).unwrap();
    let level = root.level.unwrap();
    assert!(matches!(level.field("xPos"), Some(Node::Int(-7))));
    match level.field("TileEntities") {
        Some(Node::List(items)) => {
            assert_eq!(items.len(), 1);
            assert!(matches!(items[0].field("Items"), Some(Node::List(bytes)) if bytes.len() == 2));
            assert!(matches!(items[0].field("data"), Some(Node::Other)));
        }
        _ => panic!("TileEntities should be a list"),
    }
}
