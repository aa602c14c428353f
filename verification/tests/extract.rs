use block_entity_finder::chunk::{extract, read_entities, read_entity, BlockEntity};
use block_entity_finder::payload::Root;
use block_entity_finder::skip::Skip;
use block_entity_finder::tree::{expect, find_field, Field, Node, Shape};

fn field(name: &str, value: Node) -> Field {
    Field { name: name.to_string(), value }
}

fn text(s: &str) -> Node {
    Node::Text(s.to_string())
}

fn entity(id: &str, x: i32, y: i32, z: i32) -> Node {
    Node::Compound(vec![
        field("id", text(id)),
        field("x", Node::Int(x)),
        field("y", Node::Int(y)),
        field("z", Node::Int(z)),
    ])
}

fn level(x: i32, z: i32, entities: Vec<Node>) -> Root {
    Root {
        level: Some(Node::Compound(vec![
            field("xPos", Node::Int(x)),
            field("zPos", Node::Int(z)),
            field("TileEntities", Node::List(entities)),
        ])),
    }
}

fn block_entity(id: &str, x: i32, y: i32, z: i32) -> BlockEntity {
    BlockEntity { id: id.to_string(), x, y, z }
}

#[test]
fn shape_of_each_variant() {
    assert_eq!(Node::Int(1).shape(), Shape::Int);
    assert_eq!(text("a").shape(), Shape::Text);
    assert_eq!(Node::List(vec![]).shape(), Shape::List);
    assert_eq!(Node::Compound(vec![]).shape(), Shape::Compound);
    assert_eq!(Node::Other.shape(), Shape::Other);
}

#[test]
fn field_is_found_by_name() {
    let fields = vec![field("a", Node::Int(1)), field("b", Node::Int(2))];
    assert!(matches!(find_field(&fields, "b"), Some(Node::Int(2))));
    assert!(matches!(find_field(&fields, "a"), Some(Node::Int(1))));
    assert!(find_field(&fields, "c").is_none());
    assert!(find_field(&fields, "").is_none());
    assert!(find_field(&vec![], "a").is_none());
}

#[test]
fn first_field_of_a_name_counts() {
    let fields = vec![field("a", Node::Int(1)), field("a", Node::Int(2))];
    assert!(matches!(find_field(&fields, "a"), Some(Node::Int(1))));
}

#[test]
fn field_of_a_node_that_is_no_compound() {
    assert!(Node::Int(3).field("a").is_none());
    assert!(Node::List(vec![Node::Int(3)]).field("a").is_none());
    let compound = Node::Compound(vec![field("a", text("v"))]);
    assert!(matches!(compound.field("a"), Some(Node::Text(_))));
}

#[test]
fn expect_hands_back_a_matching_node() {
    let node = Node::Int(5);
    let mut log = vec![Skip::LevelNotCompound];
    let found = expect(Some(&node), Shape::Int, Skip::EntityXNotInt, &mut log);
    assert!(matches!(found, Some(Node::Int(5))));
    assert_eq!(log, vec![Skip::LevelNotCompound]);
}

#[test]
fn expect_records_a_mismatch() {
    let node = Node::Int(5);
    let mut log = vec![Skip::LevelNotCompound];
    let found = expect(Some(&node), Shape::Text, Skip::EntityIdNotString, &mut log);
    assert!(found.is_none());
    assert_eq!(log, vec![Skip::LevelNotCompound, Skip::EntityIdNotString]);
}

#[test]
fn expect_records_a_missing_node() {
    let mut log = Vec::new();
    let found = expect(None, Shape::Compound, Skip::LevelNotCompound, &mut log);
    assert!(found.is_none());
    assert_eq!(log, vec![Skip::LevelNotCompound]);
}

#[test]
fn well_formed_entity_is_read() {
    let mut log = Vec::new();
    let read = read_entity(&entity("minecraft:chest", 1, 2, 3), &mut log);
    assert_eq!(read, Some(block_entity("minecraft:chest", 1, 2, 3)));
    assert!(log.is_empty());
}

#[test]
fn entity_that_is_no_compound_is_dropped() {
    let mut log = Vec::new();
    assert_eq!(read_entity(&Node::Int(1), &mut log), None);
    assert_eq!(read_entity(&Node::Other, &mut log), None);
    assert_eq!(log, vec![Skip::EntityNotCompound, Skip::EntityNotCompound]);
}

#[test]
fn entity_with_wrong_id_is_dropped() {
    let mut log = Vec::new();
    let item = Node::Compound(vec![
        field("id", Node::Int(4)),
        field("x", Node::Int(1)),
        field("y", Node::Int(2)),
        field("z", Node::Int(3)),
    ]);
    assert_eq!(read_entity(&item, &mut log), None);
    assert_eq!(log, vec![Skip::EntityIdNotString]);
}

#[test]
fn entity_with_wrong_coordinate_is_dropped() {
    let mut log = Vec::new();
    let no_x = Node::Compound(vec![
        field("id", text("a")),
        field("x", text("1")),
        field("y", Node::Int(2)),
        field("z", Node::Int(3)),
    ]);
    let no_y = Node::Compound(vec![
        field("id", text("a")),
        field("x", Node::Int(1)),
        field("z", Node::Int(3)),
    ]);
    let no_z = Node::Compound(vec![
        field("id", text("a")),
        field("x", Node::Int(1)),
        field("y", Node::Int(2)),
        field("z", Node::Other),
    ]);
    assert_eq!(read_entity(&no_x, &mut log), None);
    assert_eq!(read_entity(&no_y, &mut log), None);
    assert_eq!(read_entity(&no_z, &mut log), None);
    assert_eq!(log, vec![Skip::EntityXNotInt, Skip::EntityYNotInt, Skip::EntityZNotInt]);
}

#[test]
fn first_failing_field_is_reported() {
    let mut log = Vec::new();
    assert_eq!(read_entity(&Node::Compound(vec![]), &mut log), None);
    assert_eq!(log, vec![Skip::EntityIdNotString]);
    let mut second = Vec::new();
    let item = Node::Compound(vec![field("id", text("a")), field("z", Node::Int(1))]);
    assert_eq!(read_entity(&item, &mut second), None);
    assert_eq!(second, vec![Skip::EntityXNotInt]);
}

#[test]
fn entities_keep_their_order() {
    let mut log = Vec::new();
    let items = vec![entity("c", 3, 3, 3), entity("a", 1, 1, 1), entity("b", 2, 2, 2)];
    let read = read_entities(&items, &mut log);
    assert_eq!(
        read,
        vec![block_entity("c", 3, 3, 3), block_entity("a", 1, 1, 1), block_entity("b", 2, 2, 2)]
    );
    assert!(log.is_empty());
}

#[test]
fn tile_entity_missing_id_is_dropped_and_others_kept() {
    let mut log = Vec::new();
    let missing = Node::Compound(vec![
        field("x", Node::Int(9)),
        field("y", Node::Int(9)),
        field("z", Node::Int(9)),
    ]);
    let root = level(0, 0, vec![entity("a", 1, 1, 1), missing, entity("b", 2, 2, 2)]);
    let chunk = extract(&root, &mut log).unwrap();
    assert_eq!(chunk.block_entities, vec![block_entity("a", 1, 1, 1), block_entity("b", 2, 2, 2)]);
    assert_eq!(log, vec![Skip::EntityIdNotString]);
}

#[test]
fn malformed_entities_are_reported_in_order() {
    let mut log = vec![Skip::CoordinatesNotInts];
    let items = vec![
        Node::Int(0),
        entity("a", 1, 1, 1),
        Node::Compound(vec![field("id", text("b"))]),
        entity("c", 3, 3, 3),
    ];
    let read = read_entities(&items, &mut log);
    assert_eq!(read, vec![block_entity("a", 1, 1, 1), block_entity("c", 3, 3, 3)]);
    assert_eq!(
        log,
        vec![Skip::CoordinatesNotInts, Skip::EntityNotCompound, Skip::EntityXNotInt]
    );
}

#[test]
fn chunk_is_extracted_with_coordinates_and_entities() {
    let mut log = Vec::new();
    let root = level(3, -1, vec![entity("minecraft:chest", 1, 2, 3)]);
    let chunk = extract(&root, &mut log).unwrap();
    assert_eq!(chunk.x, 3);
    assert_eq!(chunk.z, -1);
    assert_eq!(chunk.block_entities, vec![block_entity("minecraft:chest", 1, 2, 3)]);
    assert!(log.is_empty());
}

#[test]
fn chunk_without_level_is_skipped() {
    let mut log = Vec::new();
    assert!(extract(&Root { level: None }, &mut log).is_none());
    assert!(extract(&Root { level: Some(Node::Int(1)) }, &mut log).is_none());
    assert!(extract(&Root { level: Some(Node::List(vec![])) }, &mut log).is_none());
    assert_eq!(
        log,
        vec![Skip::LevelNotCompound, Skip::LevelNotCompound, Skip::LevelNotCompound]
    );
}

#[test]
fn chunk_without_integer_coordinates_is_skipped() {
    let mut log = Vec::new();
    let no_x = Root {
        level: Some(Node::Compound(vec![
            field("zPos", Node::Int(1)),
            field("TileEntities", Node::List(vec![entity("a", 1, 1, 1)])),
        ])),
    };
    let bad_z = Root {
        level: Some(Node::Compound(vec![
            field("xPos", Node::Int(1)),
            field("zPos", text("1")),
            field("TileEntities", Node::List(vec![entity("a", 1, 1, 1)])),
        ])),
    };
    let neither = Root { level: Some(Node::Compound(vec![])) };
    assert!(extract(&no_x, &mut log).is_none());
    assert!(extract(&bad_z, &mut log).is_none());
    assert!(extract(&neither, &mut log).is_none());
    assert_eq!(
        log,
        vec![Skip::CoordinatesNotInts, Skip::CoordinatesNotInts, Skip::CoordinatesNotInts]
    );
}

#[test]
fn chunk_without_entity_list_is_skipped() {
    let mut log = Vec::new();
    let missing = Root {
        level: Some(Node::Compound(vec![field("xPos", Node::Int(1)), field("zPos", Node::Int(2))])),
    };
    let wrong = Root {
        level: Some(Node::Compound(vec![
            field("xPos", Node::Int(1)),
            field("zPos", Node::Int(2)),
            field("TileEntities", Node::Compound(vec![])),
        ])),
    };
    assert!(extract(&missing, &mut log).is_none());
    assert!(extract(&wrong, &mut log).is_none());
    assert_eq!(log, vec![Skip::TileEntitiesNotList, Skip::TileEntitiesNotList]);
}

#[test]
fn chunk_with_no_entities_is_omitted_silently() {
    let mut log = Vec::new();
    assert!(extract(&level(1, 2, vec![]), &mut log).is_none());
    assert!(log.is_empty());
}

#[test]
fn chunk_with_no_surviving_entity_is_omitted() {
    let mut log = Vec::new();
    let root = level(1, 2, vec![Node::Int(1), Node::Compound(vec![])]);
    assert!(extract(&root, &mut log).is_none());
    assert_eq!(log, vec![Skip::EntityNotCompound, Skip::EntityIdNotString]);
}
