use block_editor::ids::{classify, NodeTag};
use block_editor::reconcile::{apply_record, reconcile_batch, reconcile_record};
use block_editor::record::{Record, RecordKind};
use block_editor::store::{Block, Store};
use block_editor::surface::{project, Node, Surface};
use uuid::Uuid;

fn attr_of(id: u128) -> String {
    Uuid::from_u128(id).to_string()
}

fn parse_attr(attr: &str) -> Option<u128> {
    Uuid::parse_str(attr).ok().map(|u| u.as_u128())
}

fn store_of(blocks: Vec<(u128, &str)>) -> Store {
    Store {
        blocks: blocks
            .into_iter()
            .map(|(id, content)| Block {
                id,
                content: String::from(content),
            })
            .collect(),
    }
}

fn node(attr: String, text: &str) -> Node {
    Node {
        attr,
        text: String::from(text),
    }
}

#[test]
fn classify_recognizes_root() {
    assert_eq!(classify(&String::from("editor")), NodeTag::Root);
}

#[test]
fn classify_recognizes_tracked() {
    let id = Uuid::new_v4().as_u128();
    assert_eq!(classify(&attr_of(id)), NodeTag::Tagged(id));
}

#[test]
fn classify_recognizes_untracked() {
    assert_eq!(classify(&String::from("")), NodeTag::Untagged);
    assert_eq!(classify(&String::from("not-a-uuid")), NodeTag::Untagged);
}

#[test]
fn character_data_updates_tracked_block() {
    let a = Uuid::new_v4().as_u128();
    let mut store = store_of(vec![(a, "first element")]);
    let mut surface = Surface {
        nodes: vec![node(attr_of(a), "first element!")],
    };
    let rec = Record {
        kind: RecordKind::CharacterData,
        target: Some(0),
    };
    apply_record(&mut store, &mut surface, &rec, 0);
    assert_eq!(store.blocks.len(), 1);
    assert_eq!(store.blocks[0].id, a);
    assert_eq!(store.blocks[0].content, "first element!");
}

#[test]
fn character_data_takes_full_text_not_delta() {
    let a = Uuid::new_v4().as_u128();
    let mut store = store_of(vec![(a, "abc")]);
    let mut surface = Surface {
        nodes: vec![node(attr_of(a), "xyz")],
    };
    let rec = Record {
        kind: RecordKind::CharacterData,
        target: Some(0),
    };
    // Two records of one batch: the later one still sees the authoritative text.
    reconcile_batch(&mut store, &mut surface, &vec![rec, rec]);
    assert_eq!(store.blocks[0].content, "xyz");
}

#[test]
fn child_list_creates_block() {
    let a = Uuid::new_v4().as_u128();
    let fresh = Uuid::new_v4().as_u128();
    let mut store = store_of(vec![(a, "first element")]);
    let mut surface = Surface {
        nodes: vec![node(String::new(), "hello")],
    };
    let rec = Record {
        kind: RecordKind::ChildList,
        target: Some(0),
    };
    apply_record(&mut store, &mut surface, &rec, fresh);
    assert_eq!(store.blocks.len(), 2);
    assert_eq!(store.blocks[1].id, fresh);
    assert_eq!(store.blocks[1].content, "hello");
    // The element gained the minted identifier as its attribute.
    assert_eq!(parse_attr(&surface.nodes[0].attr), Some(fresh));
}

#[test]
fn root_surface_is_skipped() {
    let a = Uuid::new_v4().as_u128();
    let mut store = store_of(vec![(a, "first element")]);
    let mut surface = Surface {
        nodes: vec![node(String::from("editor"), "first element")],
    };
    let rec = Record {
        kind: RecordKind::ChildList,
        target: Some(0),
    };
    apply_record(&mut store, &mut surface, &rec, Uuid::new_v4().as_u128());
    assert_eq!(store.blocks.len(), 1);
    assert_eq!(store.blocks[0].content, "first element");
    assert_eq!(surface.nodes[0].attr, "editor");
}

#[test]
fn retag_is_idempotent() {
    let mut store = store_of(vec![]);
    let mut surface = Surface {
        nodes: vec![node(String::new(), "hello")],
    };
    let rec = Record {
        kind: RecordKind::ChildList,
        target: Some(0),
    };
    reconcile_record(&mut store, &mut surface, &rec);
    assert_eq!(store.blocks.len(), 1);
    let minted = store.blocks[0].id;
    // Replaying the record: the node is now tagged, so nothing changes.
    reconcile_record(&mut store, &mut surface, &rec);
    reconcile_record(&mut store, &mut surface, &rec);
    assert_eq!(store.blocks.len(), 1);
    assert_eq!(store.blocks[0].id, minted);
}

#[test]
fn unknown_targets_never_mutate() {
    let a = Uuid::new_v4().as_u128();
    let before = vec![(a, "first element")];
    let mut store = store_of(before.clone());
    let mut surface = Surface {
        nodes: vec![node(String::from("stray"), "noise")],
    };
    let records = vec![
        // Text change under an untracked node.
        Record {
            kind: RecordKind::CharacterData,
            target: Some(0),
        },
        // Unresolvable target.
        Record {
            kind: RecordKind::CharacterData,
            target: None,
        },
        // Target index out of range.
        Record {
            kind: RecordKind::ChildList,
            target: Some(7),
        },
        // Reserved record class.
        Record {
            kind: RecordKind::Other,
            target: Some(0),
        },
    ];
    reconcile_batch(&mut store, &mut surface, &records);
    assert_eq!(store.blocks.len(), 1);
    assert_eq!(store.blocks[0].id, a);
    assert_eq!(store.blocks[0].content, "first element");
    assert_eq!(surface.nodes[0].attr, "stray");
}

#[test]
fn valid_id_without_block_is_dropped() {
    let a = Uuid::new_v4().as_u128();
    let other = Uuid::new_v4().as_u128();
    let mut store = store_of(vec![(a, "first element")]);
    let mut surface = Surface {
        nodes: vec![node(attr_of(other), "edited")],
    };
    let rec = Record {
        kind: RecordKind::CharacterData,
        target: Some(0),
    };
    apply_record(&mut store, &mut surface, &rec, 0);
    // No block carries the identifier: the record is dropped, no block is
    // silently corrupted.
    assert_eq!(store.blocks[0].content, "first element");
}

#[test]
fn created_blocks_have_distinct_ids() {
    let mut store = store_of(vec![(Uuid::new_v4().as_u128(), "first element")]);
    let mut surface = Surface {
        nodes: vec![
            node(String::new(), "one"),
            node(String::new(), "two"),
            node(String::new(), "three"),
        ],
    };
    let records: Vec<Record> = (0..3)
        .map(|t| Record {
            kind: RecordKind::ChildList,
            target: Some(t),
        })
        .collect();
    reconcile_batch(&mut store, &mut surface, &records);
    assert_eq!(store.blocks.len(), 4);
    for i in 0..store.blocks.len() {
        for j in 0..store.blocks.len() {
            if i != j {
                assert_ne!(store.blocks[i].id, store.blocks[j].id);
            }
        }
    }
    // Every tracked node's attribute equals exactly one block's identifier.
    for (t, text) in [(0, "one"), (1, "two"), (2, "three")] {
        let id = parse_attr(&surface.nodes[t].attr).expect("node should be tagged");
        let matching: Vec<&Block> = store.blocks.iter().filter(|b| b.id == id).collect();
        assert_eq!(matching.len(), 1);
        assert_eq!(matching[0].content, text);
    }
}

#[test]
fn projection_reconciles_silently() {
    let store_blocks = vec![
        (Uuid::new_v4().as_u128(), "first element"),
        (Uuid::new_v4().as_u128(), "second"),
    ];
    let mut store = store_of(store_blocks);
    let before: Vec<(u128, String)> = store
        .blocks
        .iter()
        .map(|b| (b.id, b.content.clone()))
        .collect();
    let mut surface = project(&store);
    // Whatever records the renderer's own writes provoke, nothing changes.
    let records = vec![
        Record {
            kind: RecordKind::ChildList,
            target: Some(0),
        },
        Record {
            kind: RecordKind::ChildList,
            target: Some(1),
        },
        Record {
            kind: RecordKind::CharacterData,
            target: Some(0),
        },
        Record {
            kind: RecordKind::CharacterData,
            target: Some(1),
        },
    ];
    reconcile_batch(&mut store, &mut surface, &records);
    let after: Vec<(u128, String)> = store
        .blocks
        .iter()
        .map(|b| (b.id, b.content.clone()))
        .collect();
    assert_eq!(before, after);
}

#[test]
fn projection_mirrors_store() {
    let a = Uuid::new_v4().as_u128();
    let b = Uuid::new_v4().as_u128();
    let store = store_of(vec![(a, "alpha"), (b, "beta")]);
    let surface = project(&store);
    assert_eq!(surface.nodes.len(), 2);
    assert_eq!(parse_attr(&surface.nodes[0].attr), Some(a));
    assert_eq!(parse_attr(&surface.nodes[1].attr), Some(b));
    assert_eq!(surface.nodes[0].text, "alpha");
    assert_eq!(surface.nodes[1].text, "beta");
}

#[test]
fn initial_store_is_seeded() {
    let store = Store::initial();
    assert_eq!(store.blocks.len(), 1);
    assert_eq!(store.blocks[0].content, "first element");
}

#[test]
fn find_index_locates_blocks() {
    let a = Uuid::new_v4().as_u128();
    let b = Uuid::new_v4().as_u128();
    let c = Uuid::new_v4().as_u128();
    let store = store_of(vec![(a, "alpha"), (b, "beta")]);
    assert_eq!(store.find_index(a), Some(0));
    assert_eq!(store.find_index(b), Some(1));
    assert_eq!(store.find_index(c), None);
    assert!(store.contains_id(a));
    assert!(!store.contains_id(c));
}
