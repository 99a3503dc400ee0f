use obweb::error::{ErrorKind, Fault};
use obweb::loader::{dispatch, init_db, insert, load, Notice};
use obweb::object::{Kind, Lineage, Object, Post, Profile};
use obweb::registry::{add_provider, Registry};
use obweb::store::Knowledge;
use obweb::tree::Node;

const ZERO: &str = "AAAAAAAAAAAAAAAAAAAAAA";
const MAX: &str = "/////////////////////w";

fn text_field(key: &str, value: &str) -> Node {
    Node::branch(vec![Node::leaf(key), Node::leaf(value)])
}

fn profile_record(id: Option<&str>, name: &str, description: &str) -> Node {
    let mut items = vec![Node::leaf("profile")];
    if let Some(token) = id {
        items.push(text_field("id", token));
    }
    items.push(text_field("name", name));
    items.push(text_field("description", description));
    Node::branch(items)
}

fn post_record(id: Option<u128>) -> Node {
    let mut items = vec![Node::leaf("post")];
    if let Some(id) = id {
        items.push(text_field("id", &obweb::codec::encode_id(id)));
    }
    Node::branch(items)
}

fn insert_directive(records: Vec<Node>) -> Node {
    let mut items = vec![Node::leaf("insert")];
    items.extend(records);
    Node::branch(items)
}

fn profile_object(id: u128, name: &str, description: &str) -> Object {
    Object::Profile(Profile {
        id,
        lineage: Lineage::root(id),
        name: name.to_string(),
        description: description.to_string(),
    })
}

fn post_object(id: u128) -> Object {
    Object::Post(Post { id, lineage: Lineage::root(id) })
}

#[test]
fn two_profiles_one_with_an_identifier_one_without() {
    // (insert (profile (id AAAAAAAAAAAAAAAAAAAAAA) (name "Alice") (description "bio"))
    //         (profile (name "Bob") (description "bio2")))
    let tree = Node::branch(vec![insert_directive(vec![
        profile_record(Some(ZERO), "Alice", "bio"),
        profile_record(None, "Bob", "bio2"),
    ])]);
    let loaded = init_db(&tree, 1000).ok().unwrap();
    assert_eq!(loaded.notices, vec![]);
    assert_eq!(loaded.explicit_ids, vec![0]);
    assert_eq!(loaded.generated_ids, vec![2]);
    let store = &loaded.knowledge;
    assert_eq!(store.lookup(0), Some(&profile_object(0, "Alice", "bio")));
    assert_eq!(store.lookup(2), Some(&profile_object(2, "Bob", "bio2")));
    assert_eq!(store.lookup(1), None);
    assert_eq!(store.max_known_id(), 2);
    assert_eq!(store.lookup_by_name("Alice"), vec![0]);
    assert_eq!(store.lookup_by_name("Bob"), vec![2]);
    assert_eq!(store.known(2).unwrap().date_seen, 1000);
}

#[test]
fn generated_identifiers_lie_above_every_stated_one() {
    // the record without identifier comes first, the greatest identifier last
    let tree = Node::branch(vec![
        insert_directive(vec![post_record(None), post_record(Some(40)), post_record(None)]),
        insert_directive(vec![post_record(Some(7)), post_record(None), post_record(Some(1000))]),
    ]);
    let loaded = init_db(&tree, 5).ok().unwrap();
    assert_eq!(loaded.explicit_ids, vec![40, 7, 1000]);
    assert_eq!(loaded.read_ids, vec![40, 7, 1000]);
    assert_eq!(loaded.generated_ids, vec![1001, 1002, 1003]);
    let store = &loaded.knowledge;
    for id in [40u128, 7, 1000, 1001, 1002, 1003] {
        assert_eq!(store.lookup(id), Some(&post_object(id)));
    }
    assert_eq!(store.max_known_id(), 1003);
    assert_eq!(store.lookup(1004), None);
}

#[test]
fn an_empty_input_loads_an_empty_store() {
    let loaded = init_db(&Node::branch(vec![]), 0).ok().unwrap();
    assert_eq!(loaded.notices, vec![]);
    assert_eq!(loaded.explicit_ids, Vec::<u128>::new());
    assert_eq!(loaded.generated_ids, Vec::<u128>::new());
    assert_eq!(loaded.knowledge.max_known_id(), 1);
}

#[test]
fn a_stated_identifier_below_the_floor_leaves_the_floor() {
    let tree = Node::branch(vec![insert_directive(vec![profile_record(Some(ZERO), "A", "d")])]);
    let loaded = init_db(&tree, 0).ok().unwrap();
    assert_eq!(loaded.knowledge.lookup(0), Some(&profile_object(0, "A", "d")));
    assert_eq!(loaded.knowledge.max_known_id(), 1);
}

#[test]
fn a_record_under_an_unknown_tag_is_skipped_with_a_warning() {
    let stranger = Node::branch(vec![
        Node::leaf("comment"),
        text_field("id", &obweb::codec::encode_id(40)),
    ]);
    let tree = Node::branch(vec![insert_directive(vec![
        post_record(Some(3)),
        Node::branch(vec![Node::leaf("comment"), text_field("id", &obweb::codec::encode_id(40))]),
        post_record(None),
    ])]);
    let loaded = init_db(&tree, 0).ok().unwrap();
    assert_eq!(loaded.notices.len(), 1);
    match &loaded.notices[0] {
        Notice::Skipped(e) => {
            assert_eq!(e.kind, ErrorKind::UnknownType);
            assert!(e.is_warning());
            assert_eq!(e.key, "comment");
            assert_eq!(e.subtree, Some(stranger));
            assert_eq!(e.message(), "unrecognized type tag or directive");
        }
        other => panic!("unexpected notice {:?}", other),
    }
    // its identifier is observed, and nothing is kept under it
    assert_eq!(loaded.explicit_ids, vec![3, 40]);
    assert_eq!(loaded.read_ids, vec![3]);
    assert_eq!(loaded.generated_ids, vec![41]);
    assert_eq!(loaded.knowledge.max_known_id(), 41);
    assert_eq!(loaded.knowledge.lookup(3), Some(&post_object(3)));
    assert_eq!(loaded.knowledge.lookup(41), Some(&post_object(41)));
    assert_eq!(loaded.knowledge.lookup(40), None);
    assert_eq!(loaded.knowledge.expiry_key(40), None);
    assert_eq!(loaded.knowledge.short_name(40), None);
}

#[test]
fn no_generated_identifier_meets_the_identifier_of_a_skipped_record() {
    // (insert (gizmo (id <token of 2>)) (profile (name Bob) (description b)))
    let tree = Node::branch(vec![insert_directive(vec![
        Node::branch(vec![Node::leaf("gizmo"), text_field("id", &obweb::codec::encode_id(2))]),
        profile_record(None, "Bob", "b"),
    ])]);
    let loaded = init_db(&tree, 0).ok().unwrap();
    assert_eq!(loaded.explicit_ids, vec![2]);
    assert_eq!(loaded.read_ids, Vec::<u128>::new());
    assert_eq!(loaded.generated_ids, vec![3]);
    assert_eq!(loaded.knowledge.lookup(2), None);
    assert_eq!(loaded.knowledge.lookup(3), Some(&profile_object(3, "Bob", "b")));
    assert_eq!(loaded.knowledge.lookup_by_name("Bob"), vec![3]);
    assert_eq!(loaded.knowledge.names_in_order(), vec!["Bob"]);
    assert_eq!(loaded.knowledge.queued_under(0, 2), None);
    assert_eq!(loaded.knowledge.queued_under(0, 3), Some(0));
    assert_eq!(loaded.notices.len(), 1);
}

#[test]
fn a_skipped_record_that_states_the_greatest_identifier_leaves_none_to_generate() {
    let tree = Node::branch(vec![insert_directive(vec![
        post_record(Some(3)),
        Node::branch(vec![Node::leaf("comment"), text_field("id", MAX)]),
        post_record(None),
    ])]);
    let e = init_db(&tree, 0).err().unwrap();
    assert_eq!(e.kind, ErrorKind::IdCollision(u128::MAX));

    let tree = Node::branch(vec![insert_directive(vec![
        post_record(Some(3)),
        Node::branch(vec![Node::leaf("comment"), text_field("id", MAX)]),
    ])]);
    let loaded = init_db(&tree, 0).ok().unwrap();
    assert_eq!(loaded.explicit_ids, vec![3, u128::MAX]);
    assert_eq!(loaded.read_ids, vec![3]);
    assert_eq!(loaded.knowledge.max_known_id(), u128::MAX);
    assert_eq!(loaded.knowledge.lookup(u128::MAX), None);
}

#[test]
fn an_unknown_record_with_a_malformed_id_draws_the_warning_only() {
    let tree = Node::branch(vec![insert_directive(vec![
        Node::branch(vec![Node::leaf("comment"), text_field("id", "AAAA")]),
        Node::branch(vec![Node::leaf("comment")]),
        post_record(None),
    ])]);
    let loaded = init_db(&tree, 0).ok().unwrap();
    assert_eq!(loaded.explicit_ids, Vec::<u128>::new());
    assert_eq!(loaded.generated_ids, vec![2]);
    assert_eq!(loaded.notices.len(), 2);
    for notice in &loaded.notices {
        match notice {
            Notice::Skipped(e) => assert_eq!(e.kind, ErrorKind::UnknownType),
            other => panic!("unexpected notice {:?}", other),
        }
    }
}

#[test]
fn a_tag_without_provider_is_unknown_to_a_smaller_registry() {
    let mut providers = Registry::new();
    assert!(add_provider(&mut providers, Kind::Profile).is_ok());
    let tree = Node::branch(vec![insert_directive(vec![
        post_record(Some(3)),
        profile_record(None, "A", "d"),
    ])]);
    let loaded = load(&tree, &providers, 0).ok().unwrap();
    assert_eq!(loaded.notices.len(), 1);
    assert_eq!(loaded.explicit_ids, vec![3]);
    assert_eq!(loaded.read_ids, Vec::<u128>::new());
    assert_eq!(loaded.generated_ids, vec![4]);
    assert_eq!(loaded.knowledge.lookup(3), None);
    assert_eq!(loaded.knowledge.lookup(4), Some(&profile_object(4, "A", "d")));
}

#[test]
fn an_unknown_directive_is_skipped_with_a_warning() {
    let tree = Node::branch(vec![
        Node::branch(vec![Node::leaf("remove"), post_record(Some(3))]),
        insert_directive(vec![post_record(Some(4))]),
    ]);
    let loaded = init_db(&tree, 0).ok().unwrap();
    assert_eq!(loaded.notices.len(), 1);
    match &loaded.notices[0] {
        Notice::Skipped(e) => {
            assert_eq!(e.kind, ErrorKind::UnknownType);
            assert_eq!(e.key, "remove");
        }
        other => panic!("unexpected notice {:?}", other),
    }
    assert_eq!(loaded.knowledge.lookup(3), None);
    assert_eq!(loaded.knowledge.lookup(4), Some(&post_object(4)));
}

#[test]
fn make_reply_tree_is_accepted_and_not_carried_out() {
    let tree = Node::branch(vec![
        Node::branch(vec![Node::leaf("make_reply_tree"), text_field("to", ZERO)]),
        insert_directive(vec![post_record(Some(4))]),
    ]);
    let loaded = init_db(&tree, 0).ok().unwrap();
    assert_eq!(loaded.notices, vec![Notice::NotReady]);
    assert_eq!(loaded.knowledge.lookup(4), Some(&post_object(4)));
}

#[test]
fn a_malformed_record_is_skipped_and_the_rest_is_read() {
    let broken = Node::branch(vec![Node::leaf("profile"), text_field("id", ZERO), text_field("name", "A")]);
    let tree = Node::branch(vec![insert_directive(vec![
        Node::branch(vec![Node::leaf("profile"), text_field("id", ZERO), text_field("name", "A")]),
        profile_record(None, "B", "d"),
        post_record(Some(9)),
    ])]);
    let loaded = init_db(&tree, 0).ok().unwrap();
    assert_eq!(loaded.notices.len(), 1);
    match &loaded.notices[0] {
        Notice::Skipped(e) => {
            assert_eq!(e.kind, ErrorKind::Decode(Fault::MissingField));
            assert!(!e.is_warning());
            assert_eq!(e.key, "description");
            assert_eq!(e.subtree, Some(broken));
        }
        other => panic!("unexpected notice {:?}", other),
    }
    assert_eq!(loaded.knowledge.lookup(0), None);
    assert_eq!(loaded.knowledge.lookup(9), Some(&post_object(9)));
    assert_eq!(loaded.knowledge.lookup(10), Some(&profile_object(10, "B", "d")));
    assert_eq!(loaded.explicit_ids, vec![0, 9]);
    assert_eq!(loaded.read_ids, vec![0, 9]);
    assert_eq!(loaded.generated_ids, vec![10]);
}

#[test]
fn a_malformed_identifier_skips_its_record() {
    let tree = Node::branch(vec![insert_directive(vec![
        profile_record(Some("AAAA"), "A", "d"),
        profile_record(Some(MAX), "B", "d"),
    ])]);
    let loaded = init_db(&tree, 0).ok().unwrap();
    assert_eq!(loaded.notices.len(), 1);
    match &loaded.notices[0] {
        Notice::Skipped(e) => {
            assert_eq!(e.kind, ErrorKind::Decode(Fault::WrongLength));
            assert_eq!(e.subtree, Some(Node::leaf("AAAA")));
        }
        other => panic!("unexpected notice {:?}", other),
    }
    assert_eq!(loaded.explicit_ids, vec![u128::MAX]);
    assert_eq!(loaded.knowledge.lookup(u128::MAX), Some(&profile_object(u128::MAX, "B", "d")));
    assert_eq!(loaded.knowledge.lookup_by_name("A"), Vec::<u128>::new());
}

#[test]
fn a_malformed_record_without_identifier_still_uses_one() {
    let tree = Node::branch(vec![insert_directive(vec![
        Node::branch(vec![Node::leaf("profile"), text_field("name", "A")]),
        post_record(None),
    ])]);
    let loaded = init_db(&tree, 0).ok().unwrap();
    assert_eq!(loaded.generated_ids, vec![2, 3]);
    assert_eq!(loaded.knowledge.lookup(2), None);
    assert_eq!(loaded.knowledge.lookup(3), Some(&post_object(3)));
    assert_eq!(loaded.notices.len(), 1);
}

#[test]
fn report_ids_reports_the_identifier_of_every_record() {
    let header = Node::branch(vec![Node::leaf("insert"), Node::leaf("report_ids")]);
    let tree = Node::branch(vec![
        Node::branch(vec![header, post_record(Some(5)), profile_record(None, "A", "d")]),
        insert_directive(vec![post_record(Some(6))]),
    ]);
    let loaded = init_db(&tree, 0).ok().unwrap();
    assert_eq!(
        loaded.notices,
        vec![
            Notice::Resolved { id: 5, tag: "post".to_string() },
            Notice::Resolved { id: 7, tag: "profile".to_string() },
        ]
    );
    assert_eq!(loaded.knowledge.lookup(7), Some(&profile_object(7, "A", "d")));
}

#[test]
fn no_identifier_is_left_above_the_greatest() {
    let tree = Node::branch(vec![insert_directive(vec![
        post_record(None),
        post_record(Some(u128::MAX)),
    ])]);
    let e = init_db(&tree, 0).err().unwrap();
    assert_eq!(e.kind, ErrorKind::IdCollision(u128::MAX));
    assert_eq!(e.message(), "no identifier is left above the highest known one");
}

#[test]
fn the_greatest_identifier_may_be_stated() {
    let tree = Node::branch(vec![insert_directive(vec![post_record(Some(u128::MAX))])]);
    let loaded = init_db(&tree, 0).ok().unwrap();
    assert_eq!(loaded.knowledge.lookup(u128::MAX), Some(&post_object(u128::MAX)));
    assert_eq!(loaded.knowledge.max_known_id(), u128::MAX);
}

#[test]
fn the_same_identifier_stated_twice_keeps_the_later_record() {
    let tree = Node::branch(vec![insert_directive(vec![
        profile_record(Some(MAX), "first", "d"),
        profile_record(Some(MAX), "second", "d"),
    ])]);
    let loaded = init_db(&tree, 0).ok().unwrap();
    assert_eq!(
        loaded.knowledge.lookup(u128::MAX),
        Some(&profile_object(u128::MAX, "second", "d"))
    );
    assert_eq!(loaded.knowledge.lookup_by_name("first"), Vec::<u128>::new());
    assert_eq!(loaded.knowledge.lookup_by_name("second"), vec![u128::MAX]);
}

#[test]
fn dispatch_reads_with_the_provider_of_the_tag() {
    let providers = Registry::standard();
    let mut store = Knowledge::new();
    let record = profile_record(None, "A", "d");
    assert!(dispatch(&providers, "profile", &record, 12, &mut store, 3).is_ok());
    assert_eq!(store.lookup(12), Some(&profile_object(12, "A", "d")));
    assert_eq!(store.max_known_id(), 12);
}

#[test]
fn dispatch_under_an_unknown_tag_is_a_warning() {
    let providers = Registry::standard();
    let mut store = Knowledge::new();
    let record = profile_record(None, "A", "d");
    let e = dispatch(&providers, "comment", &record, 12, &mut store, 3).unwrap_err();
    assert_eq!(e.kind, ErrorKind::UnknownType);
    assert!(e.is_warning());
    assert_eq!(e.key, "comment");
    assert_eq!(store.lookup(12), None);
    assert_eq!(store.max_known_id(), 1);
}

#[test]
fn insert_leaves_the_store_alone_on_a_malformed_record() {
    let mut store = Knowledge::new();
    let record = Node::branch(vec![Node::leaf("profile")]);
    let e = insert(Kind::Profile, &record, 12, &mut store, 3).unwrap_err();
    assert_eq!(e.kind, ErrorKind::Decode(Fault::MissingField));
    assert_eq!(store.lookup(12), None);
    assert_eq!(store.max_known_id(), 1);
}

#[test]
fn every_loaded_object_states_the_identifier_it_is_kept_under() {
    let tree = Node::branch(vec![insert_directive(vec![
        post_record(None),
        profile_record(Some(ZERO), "A", "d"),
        post_record(Some(12)),
        profile_record(None, "B", "d"),
    ])]);
    let loaded = init_db(&tree, 0).ok().unwrap();
    assert_eq!(loaded.explicit_ids, vec![0, 12]);
    assert_eq!(loaded.generated_ids, vec![13, 14]);
    for id in [0u128, 12, 13, 14] {
        let ob = loaded.knowledge.lookup(id).unwrap();
        assert_eq!(ob.id(), id);
    }
}

#[test]
fn a_load_succeeds_while_identifiers_are_left() {
    let tree = Node::branch(vec![insert_directive(vec![
        post_record(None),
        post_record(Some(u128::MAX - 1)),
    ])]);
    let loaded = init_db(&tree, 0).ok().unwrap();
    assert_eq!(loaded.generated_ids, vec![u128::MAX]);
    assert_eq!(loaded.knowledge.lookup(u128::MAX), Some(&post_object(u128::MAX)));

    let tree = Node::branch(vec![insert_directive(vec![
        post_record(None),
        post_record(Some(u128::MAX - 1)),
        post_record(None),
    ])]);
    let e = init_db(&tree, 0).err().unwrap();
    assert_eq!(e.kind, ErrorKind::IdCollision(u128::MAX));
}

#[test]
fn a_malformed_record_takes_the_last_identifier_all_the_same() {
    let tree = Node::branch(vec![insert_directive(vec![
        Node::branch(vec![Node::leaf("profile")]),
        post_record(Some(u128::MAX - 1)),
        post_record(None),
    ])]);
    let e = init_db(&tree, 0).err().unwrap();
    assert_eq!(e.kind, ErrorKind::IdCollision(u128::MAX));
}

#[test]
fn a_directive_that_is_not_insert_changes_nothing_but_the_notices() {
    let records = || vec![post_record(Some(5)), profile_record(None, "A", "d")];
    let with = Node::branch(vec![
        Node::branch(vec![Node::leaf("make_reply_tree"), post_record(Some(900))]),
        insert_directive(records()),
        Node::branch(vec![Node::leaf("forget"), post_record(None)]),
    ]);
    let without = Node::branch(vec![insert_directive(records())]);
    let a = init_db(&with, 3).ok().unwrap();
    let b = init_db(&without, 3).ok().unwrap();
    assert_eq!(a.explicit_ids, b.explicit_ids);
    assert_eq!(a.generated_ids, b.generated_ids);
    assert_eq!(a.generated_ids, vec![6]);
    assert_eq!(a.knowledge.max_known_id(), b.knowledge.max_known_id());
    for id in [5u128, 6, 900] {
        assert_eq!(a.knowledge.lookup(id), b.knowledge.lookup(id));
    }
    assert_eq!(a.knowledge.lookup(900), None);
    assert_eq!(a.knowledge.names_in_order(), b.knowledge.names_in_order());
    assert_eq!(b.notices, vec![]);
    assert_eq!(a.notices.len(), 2);
    assert_eq!(a.notices[0], Notice::NotReady);
    match &a.notices[1] {
        Notice::Skipped(e) => {
            assert_eq!(e.kind, ErrorKind::UnknownType);
            assert_eq!(e.key, "forget");
        }
        other => panic!("unexpected notice {:?}", other),
    }
}
