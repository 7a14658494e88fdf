use ual_rs::atlas::{Atlas, AtlasEntry, AtlasError};
use ual_rs::types::{UALError, UALMessage};

const TABLE: [AtlasEntry; 4] = [
    AtlasEntry { id: 0x0001, name: "ping" },
    AtlasEntry { id: 0x0010, name: "set_led" },
    AtlasEntry { id: 0x1234, name: "read_temp" },
    AtlasEntry { id: 0xFFFF, name: "reset" },
];

#[test]
fn lookup_finds_every_inserted_id() {
    let atlas = Atlas::build(&TABLE).unwrap();
    assert_eq!(atlas.len(), 4);
    for e in TABLE.iter() {
        let found = atlas.lookup(e.id).unwrap();
        assert_eq!(found.id, e.id);
        assert_eq!(found.name, e.name);
    }
}

#[test]
fn lookup_unknown_ids_give_nothing() {
    let atlas = Atlas::build(&TABLE).unwrap();
    for id in [0u16, 2, 0x000F, 0x0011, 0x1233, 0x1235, 0xFFFE] {
        assert!(atlas.lookup(id).is_none());
    }
}

#[test]
fn lookup_in_empty_atlas() {
    let empty: [AtlasEntry; 0] = [];
    let atlas = Atlas::build(&empty).unwrap();
    assert_eq!(atlas.len(), 0);
    assert!(atlas.lookup(1).is_none());
}

#[test]
fn build_rejects_duplicate_ids() {
    let dup = [
        AtlasEntry { id: 3, name: "a" },
        AtlasEntry { id: 3, name: "b" },
    ];
    assert!(matches!(Atlas::build(&dup), Err(AtlasError::DuplicateID)));
    let far = [
        AtlasEntry { id: 5, name: "a" },
        AtlasEntry { id: 9, name: "b" },
        AtlasEntry { id: 5, name: "c" },
    ];
    assert!(matches!(Atlas::build(&far), Err(AtlasError::DuplicateID)));
}

#[test]
fn build_rejects_reserved_id() {
    let t = [AtlasEntry { id: 0, name: "none" }, AtlasEntry { id: 1, name: "one" }];
    assert!(matches!(Atlas::build(&t), Err(AtlasError::ReservedID)));
}

#[test]
fn build_rejects_unsorted_table() {
    let t = [AtlasEntry { id: 2, name: "two" }, AtlasEntry { id: 1, name: "one" }];
    assert!(matches!(Atlas::build(&t), Err(AtlasError::Unsorted)));
}

#[test]
fn validate_checks_action_membership() {
    let atlas = Atlas::build(&TABLE).unwrap();
    let known = UALMessage { action_id: 0x0010, target_id: 99, value: 1 };
    assert_eq!(atlas.validate(&known).unwrap().name, "set_led");
    let unknown = UALMessage { action_id: 0x0011, target_id: 0x0010, value: 1 };
    assert!(matches!(atlas.validate(&unknown), Err(UALError::InvalidID)));
}
