use std::collections::hash_map::DefaultHasher;
use std::hash::{Hash, Hasher};

use kin_lsp::enrichment::{deterministic_relation_id, EntityIndex, EntityRef};
use kin_lsp::types::{EntityId, RelationKind};

#[test]
fn entity_index_finds_by_position() {
    let entities = vec![
        EntityRef {
            id: EntityId::new(),
            name: "foo".to_string(),
            file_path: "src/lib.rs".to_string(),
            start_line: 10,
            start_col: 0,
            end_line: 20,
            name_line: 10,
            name_col: 3,
        },
        EntityRef {
            id: EntityId::new(),
            name: "bar".to_string(),
            file_path: "src/lib.rs".to_string(),
            start_line: 25,
            start_col: 0,
            end_line: 35,
            name_line: 25,
            name_col: 3,
        },
    ];
    let index = EntityIndex::new(entities);

    let found = index.find_at("file:///project/src/lib.rs", 15);
    assert!(found.is_some());
    assert_eq!(found.unwrap().name, "foo");

    let found = index.find_at("file:///project/src/lib.rs", 30);
    assert!(found.is_some());
    assert_eq!(found.unwrap().name, "bar");

    // Outside any entity
    let found = index.find_at("file:///project/src/lib.rs", 22);
    assert!(found.is_none());
}

#[test]
fn entity_index_finds_by_name() {
    let entities = vec![EntityRef {
        id: EntityId::new(),
        name: "Config.new".to_string(),
        file_path: "src/config.rs".to_string(),
        start_line: 5,
        start_col: 0,
        end_line: 10,
        name_line: 5,
        name_col: 7,
    }];
    let index = EntityIndex::new(entities);

    assert!(index.find_by_name("Config.new").is_some());
    assert!(index.find_by_name("new").is_some()); // suffix match
    assert!(index.find_by_name("nonexistent").is_none());
}

#[test]
fn deterministic_relation_ids_are_stable_for_same_edge() {
    let src = EntityId::new();
    let dst = EntityId::new();
    let first = deterministic_relation_id(RelationKind::Calls, src, dst);
    let second = deterministic_relation_id(RelationKind::Calls, src, dst);
    let different = deterministic_relation_id(RelationKind::References, src, dst);

    assert_eq!(first, second);
    assert_ne!(first, different);
}

#[test]
fn a_relation_id_is_two_hashes_of_its_edge() {
    let src = EntityId(0x0123_4567_89ab_cdef_0011_2233_4455_6677);
    let dst = EntityId(0xf0e0_d0c0_b0a0_9080_7060_5040_3020_1000);
    let from = uuid::Uuid::from_u128(src.0);
    let to = uuid::Uuid::from_u128(dst.0);
    for (number, kind) in [
        (0isize, RelationKind::Calls),
        (1, RelationKind::References),
        (5, RelationKind::Imports),
    ] {
        let mut first = DefaultHasher::new();
        number.hash(&mut first);
        from.hash(&mut first);
        to.hash(&mut first);
        "kin-lsp".hash(&mut first);
        let mut second = DefaultHasher::new();
        "kin-lsp".hash(&mut second);
        to.hash(&mut second);
        from.hash(&mut second);
        number.hash(&mut second);
        let mut bytes = [0u8; 16];
        bytes[..8].copy_from_slice(&first.finish().to_le_bytes());
        bytes[8..].copy_from_slice(&second.finish().to_le_bytes());
        assert_eq!(
            deterministic_relation_id(kind, src, dst).0,
            u128::from_be_bytes(bytes)
        );
    }
}

#[test]
fn fresh_ids_are_random_uuids() {
    let first = EntityId::new();
    let second = EntityId::new();
    assert_ne!(first, second);
    let text = first.to_string();
    assert_eq!(text.len(), 36);
    assert_eq!(text.as_bytes()[14], b'4');
    assert_eq!(
        EntityId(1).to_string(),
        "00000000-0000-0000-0000-000000000001"
    );
}

fn at(name: &str, start: u32, end: u32) -> EntityRef {
    EntityRef {
        id: EntityId::new(),
        name: name.to_string(),
        file_path: "src/requests/adapters.py".to_string(),
        start_line: start,
        start_col: 0,
        end_line: end,
        name_line: start,
        name_col: 4,
    }
}

/// The requests shape, in the order the index actually holds it: the module
/// spans the whole file and sorts first, the class sits inside it, and the
/// method inside that.
fn adapters_file() -> EntityIndex {
    EntityIndex::new(vec![
        at("adapters", 0, 400),
        at("BaseAdapter", 121, 155),
        at("BaseAdapter.send", 127, 140),
        at("HTTPAdapter", 157, 399),
        at("HTTPAdapter.send", 633, 700),
    ])
}

#[test]
fn a_position_inside_a_method_resolves_to_the_method() {
    let index = adapters_file();
    let found = index
        .find_at("file:///repo/src/requests/adapters.py", 127)
        .expect("line 127 is inside BaseAdapter.send");
    assert_eq!(
        found.name, "BaseAdapter.send",
        "the innermost containing span wins; got the enclosing scope instead"
    );
}

#[test]
fn nesting_resolves_rung_by_rung() {
    let index = adapters_file();
    let uri = "file:///repo/src/requests/adapters.py";
    assert_eq!(
        index.find_at(uri, 150).map(|e| e.name.as_str()),
        Some("BaseAdapter"),
        "inside the class, outside its methods"
    );
    assert_eq!(
        index.find_at(uri, 10).map(|e| e.name.as_str()),
        Some("adapters"),
        "outside every class, the module is the innermost thing there is"
    );
    assert_eq!(
        index.find_at(uri, 500).map(|e| e.name.as_str()),
        None,
        "past the end of the file nothing contains the line"
    );
}

#[test]
fn the_zero_based_line_convention_holds_in_both_directions() {
    let index = adapters_file();
    let uri = "file:///repo/src/requests/adapters.py";
    assert_eq!(
        index.find_at(uri, 127).map(|e| e.name.as_str()),
        Some("BaseAdapter.send"),
        "a span's own first line is inside it"
    );
    assert_eq!(
        index.find_at(uri, 126).map(|e| e.name.as_str()),
        Some("BaseAdapter"),
        "the line before it is not, and falls to the enclosing scope"
    );
    assert_eq!(
        index.find_at(uri, 140).map(|e| e.name.as_str()),
        Some("BaseAdapter.send"),
        "a span's own last line is inside it"
    );
}

#[test]
fn a_tie_on_the_start_line_prefers_the_smaller_span() {
    let index = EntityIndex::new(vec![at("Outer", 5, 40), at("Outer.only", 5, 12)]);
    assert_eq!(
        index
            .find_at("file:///repo/src/requests/adapters.py", 6)
            .map(|e| e.name.as_str()),
        Some("Outer.only")
    );
}

#[test]
fn source_line_gate_skips_only_lines_outside_entity_spans() {
    let uri = "file:///project/src/lib.rs";
    let entities = vec![
        EntityRef {
            id: EntityId::new(),
            name: "alpha".to_string(),
            file_path: "src/lib.rs".to_string(),
            start_line: 0,
            start_col: 0,
            end_line: 5,
            name_line: 0,
            name_col: 3,
        },
        EntityRef {
            id: EntityId::new(),
            name: "beta".to_string(),
            file_path: "src/lib.rs".to_string(),
            start_line: 20,
            start_col: 0,
            end_line: 25,
            name_line: 20,
            name_col: 3,
        },
    ];
    let index = EntityIndex::new(entities);

    // Inside an entity span: queried (find_at is Some).
    for line in [0u32, 3, 5, 20, 25] {
        assert!(
            index.find_at(uri, line).is_some(),
            "line {line} is inside an entity span and must be queried"
        );
    }
    // Outside any span (imports, blank lines, inter-entity gap, tail):
    // gated out (find_at is None). These can never produce a relation.
    for line in [6u32, 12, 19, 26, 9_999] {
        assert!(
            index.find_at(uri, line).is_none(),
            "line {line} is outside every entity span and is safe to skip"
        );
    }
}

#[test]
fn files_are_told_apart_and_sorted() {
    let mut other = at("other", 3, 4);
    other.file_path = "src/other.py".to_string();
    let index = EntityIndex::new(vec![at("late", 9, 9), other, at("early", 1, 1)]);
    let names: Vec<&str> = index
        .entities_in_file("src/requests/adapters.py")
        .iter()
        .map(|e| e.name.as_str())
        .collect();
    assert_eq!(names, vec!["early", "late"]);
    assert_eq!(index.entities_in_file("src/other.py").len(), 1);
    assert!(index.entities_in_file("src/none.py").is_empty());
    // A path that is a tail of a known one finds its file, and the other way
    // round.
    assert_eq!(index.entities_in_file("other.py").len(), 1);
    assert_eq!(index.entities_in_file("/w/src/other.py").len(), 1);
    assert!(index.find_at("http://w/src/other.py", 3).is_none());
}
